//! Where neosh keeps things.
//!
//! Four roots, following the XDG base directory spec, because a single directory mixing
//! hand-edited config with a plugin cache is a directory nobody can back up correctly:
//!
//! | Root | Holds | Safe to delete |
//! |---|---|---|
//! | config | `init.ts`, `config.toml`, `plugins/` | no: this is what you wrote |
//! | data   | plugins a manager installed | no, but it is reproducible |
//! | state  | the trust store | mostly: you re-trust your projects |
//! | cache  | derived files | yes, always |
//!
//! Every root is overridable by environment variable.

use crate::text::{begins, chars_of, push_chars, starts_with};
use vstd::prelude::*;
use vstd::slice::slice_subrange;

pub mod rooting;
pub mod spelling;

verus! {

/// A path with one more name at the end of it.
pub open spec fn under(dir: Seq<char>, leaf: Seq<char>) -> Seq<char> {
    if dir.len() == 0 || dir.last() == '/' {
        dir + leaf
    } else {
        dir.push('/') + leaf
    }
}

/// Hang a relative name off a directory.
pub fn join(dir: &str, leaf: &str) -> (r: String)
    ensures
        r@ == under(dir@, leaf@),
{
    let chars = chars_of(dir);
    let mut r = dir.to_owned();
    if chars.len() > 0 && chars[chars.len() - 1] != '/' {
        r.push('/');
    }
    r.push_str(leaf);
    r
}

/// A path with a leading `~` written out: the home directory stands for it where the path is
/// nothing else or goes on with a slash, and where there is a home directory at all.
pub open spec fn at_home(path: Seq<char>, home: Option<Seq<char>>) -> Seq<char> {
    if path.len() > 0 && path[0] == '~' && (path.len() == 1 || path[1] == '/') && home is Some {
        home->0 + path.skip(1)
    } else {
        path
    }
}

/// The text of an optional string.
pub open spec fn maybe(s: Option<&str>) -> Option<Seq<char>> {
    match s {
        Some(t) => Some(t@),
        None => None,
    }
}

/// `shellexpand::tilde_with_context` with the home directory given: it puts that in the place of a
/// leading `~` that stands alone or is followed by a slash, and leaves every other path as it is.
/// What becomes of `~` before a back-slash depends on the platform, so nothing is said of it.
#[verifier::external_body]
pub(crate) fn expand_home(path: &str, home: Option<&str>) -> (r: String)
    ensures
        !begins(path@, seq!['~', '\\']) ==> r@ == at_home(path@, maybe(home)),
{
    shellexpand::tilde_with_context(path, || home).into_owned()
}

/// An environment variable naming a directory, if it is set. Empty means "unset", so an empty
/// export in a wrapper script falls through to the default instead of resolving to the current
/// directory.
pub fn env_dir(raw: Option<&str>, home: Option<&str>) -> (r: Option<String>)
    ensures
        (r is None) == (raw is None || raw->0@.len() == 0),
        r is Some && !begins(raw->0@, seq!['~', '\\']) ==> r->0@ == at_home(raw->0@, maybe(home)),
{
    match raw {
        None => None,
        Some(s) => if s.is_empty() {
            None
        } else {
            Some(expand_home(s, home))
        },
    }
}

/// The directories that the platform keeps for an application.
#[derive(Debug, Clone)]
pub struct Standard {
    pub config: String,
    pub data: String,
    /// Only some platforms have one.
    pub state: Option<String>,
    pub cache: String,
}

/// The directories that the environment names, each as [`env_dir`] reads it.
#[derive(Debug, Clone, Default)]
pub struct Overrides {
    pub config: Option<String>,
    pub data: Option<String>,
    pub state: Option<String>,
    pub cache: Option<String>,
}

/// The resolved directory set.
#[derive(Debug, Clone, PartialEq, Eq)]
pub struct Paths {
    pub config: String,
    pub data: String,
    pub state: String,
    pub cache: String,
    /// True when `--clean` was passed: nothing is read from disk and nothing is written.
    pub clean: bool,
}

/// The config root: the flag, then the environment, then the platform.
pub open spec fn config_root(
    flag: Option<String>,
    env: Overrides,
    dirs: Option<Standard>,
) -> Seq<char> {
    if flag is Some {
        flag->0@
    } else if env.config is Some {
        env.config->0@
    } else if dirs is Some {
        dirs->0.config@
    } else {
        ".neosh-config"@
    }
}

/// The data root: the environment, then the platform, then beside the config.
pub open spec fn data_root(flag: Option<String>, env: Overrides, dirs: Option<Standard>) -> Seq<
    char,
> {
    if env.data is Some {
        env.data->0@
    } else if dirs is Some {
        dirs->0.data@
    } else {
        under(config_root(flag, env, dirs), "data"@)
    }
}

/// The state root: the environment, then the platform, then with the data.
pub open spec fn state_root(flag: Option<String>, env: Overrides, dirs: Option<Standard>) -> Seq<
    char,
> {
    if env.state is Some {
        env.state->0@
    } else if dirs is Some && dirs->0.state is Some {
        dirs->0.state->0@
    } else {
        data_root(flag, env, dirs)
    }
}

/// The cache root: the environment, then the platform, then beside the config.
pub open spec fn cache_root(flag: Option<String>, env: Overrides, dirs: Option<Standard>) -> Seq<
    char,
> {
    if env.cache is Some {
        env.cache->0@
    } else if dirs is Some {
        dirs->0.cache@
    } else {
        under(config_root(flag, env, dirs), "cache"@)
    }
}

/// Whether `p` is what these sources resolve to.
pub open spec fn resolves_to(
    flag: Option<String>,
    env: Overrides,
    dirs: Option<Standard>,
    clean: bool,
    p: Paths,
) -> bool {
    &&& p.config@ == config_root(flag, env, dirs)
    &&& p.data@ == data_root(flag, env, dirs)
    &&& p.state@ == state_root(flag, env, dirs)
    &&& p.cache@ == cache_root(flag, env, dirs)
    &&& p.clean == clean
}

/// `directories::ProjectDirs::from` for this application, and the four of its directories that
/// are used, as text: what of a path is not Unicode is lost. They depend on the platform and its
/// environment, so nothing is said of them.
#[verifier::external_body]
fn standard_dirs() -> (r: Option<Standard>) {
    let dirs = directories::ProjectDirs::from("", "", "neosh")?;
    Some(Standard {
        config: dirs.config_dir().to_string_lossy().into_owned(),
        data: dirs.data_dir().to_string_lossy().into_owned(),
        state: dirs.state_dir().map(|d| d.to_string_lossy().into_owned()),
        cache: dirs.cache_dir().to_string_lossy().into_owned(),
    })
}

impl Paths {
    /// Resolve from the environment, with `--config-dir` overriding the config root.
    pub fn resolve(config_override: Option<String>, env: Overrides, clean: bool) -> (r: Self)
        ensures
            exists|dirs: Option<Standard>| #[trigger]
                resolves_to(config_override, env, dirs, clean, r),
    {
        let dirs = standard_dirs();
        let ghost d = dirs;
        let r = Paths::resolve_from(config_override, env, dirs, clean);
        assert(resolves_to(config_override, env, d, clean, r));
        r
    }

    /// Resolve from the environment and what the platform keeps for an application.
    pub fn resolve_from(
        config_override: Option<String>,
        env: Overrides,
        dirs: Option<Standard>,
        clean: bool,
    ) -> (r: Self)
        ensures
            resolves_to(config_override, env, dirs, clean, r),
    {
        let config = match (config_override, env.config, &dirs) {
            (Some(flag), _, _) => flag,
            (None, Some(set), _) => set,
            (None, None, Some(d)) => d.config.clone(),
            (None, None, None) => ".neosh-config".to_owned(),
        };
        let data = match (env.data, &dirs) {
            (Some(set), _) => set,
            (None, Some(d)) => d.data.clone(),
            (None, None) => join(config.as_str(), "data"),
        };
        let state = match (env.state, &dirs) {
            (Some(set), _) => set,
            (None, Some(d)) => match &d.state {
                Some(s) => s.clone(),
                None => data.clone(),
            },
            (None, None) => data.clone(),
        };
        let cache = match (env.cache, &dirs) {
            (Some(set), _) => set,
            (None, Some(d)) => d.cache.clone(),
            (None, None) => join(config.as_str(), "cache"),
        };
        Paths { config, data, state, cache, clean }
    }

    /// The user's config script.
    pub fn init_script(&self) -> (r: String)
        ensures
            r@ == under(self.config@, "init.ts"@),
    {
        join(self.config.as_str(), "init.ts")
    }

    /// The declarative layer, read before any code runs.
    pub fn config_file(&self) -> (r: String)
        ensures
            r@ == under(self.config@, "config.toml"@),
    {
        join(self.config.as_str(), "config.toml")
    }

    /// Plugins the user dropped in by hand. A plugin manager installs into `data` instead.
    pub fn plugin_dir(&self) -> (r: String)
        ensures
            r@ == under(self.config@, "plugins"@),
    {
        join(self.config.as_str(), "plugins")
    }

    /// Where a plugin manager installs. Searched after the hand-managed directory so a local copy
    /// always wins over an installed one.
    pub fn installed_plugin_dir(&self) -> (r: String)
        ensures
            r@ == under(self.data@, "plugins"@),
    {
        join(self.data.as_str(), "plugins")
    }

    /// The `@neosh/api` source tree, written next to the config so `tsc` can resolve it.
    pub fn api_types(&self) -> (r: String)
        ensures
            r@ == under(self.config@, "types"@),
    {
        join(self.config.as_str(), "types")
    }

    pub fn tsconfig(&self) -> (r: String)
        ensures
            r@ == under(self.config@, "tsconfig.json"@),
    {
        join(self.config.as_str(), "tsconfig.json")
    }

    /// Which project directories the user has approved for code execution.
    pub fn trust_store(&self) -> (r: String)
        ensures
            r@ == under(self.state@, "trust.json"@),
    {
        join(self.state.as_str(), "trust.json")
    }

    /// Project-local config, relative to a workspace root.
    pub fn project_dir(cwd: &str) -> (r: String)
        ensures
            r@ == under(cwd@, ".neosh"@),
    {
        join(cwd, ".neosh")
    }

    pub fn project_config(cwd: &str) -> (r: String)
        ensures
            r@ == under(under(cwd@, ".neosh"@), "config.toml"@),
    {
        join(Paths::project_dir(cwd).as_str(), "config.toml")
    }

    pub fn project_init(cwd: &str) -> (r: String)
        ensures
            r@ == under(under(cwd@, ".neosh"@), "init.ts"@),
    {
        join(Paths::project_dir(cwd).as_str(), "init.ts")
    }
}

/// An explicit config directory wins over everything the machine says.
pub proof fn an_explicit_config_dir_wins(
    flag: String,
    env: Overrides,
    other: Overrides,
    dirs: Option<Standard>,
    others: Option<Standard>,
    clean: bool,
    a: Paths,
    b: Paths,
)
    requires
        resolves_to(Some(flag), env, dirs, clean, a),
        resolves_to(Some(flag), other, others, clean, b),
    ensures
        a.config@ == flag@,
        a.config@ == b.config@,
{
}

/// No two things kept under one root share a path: different names hang at different places.
pub proof fn names_do_not_collide(dir: Seq<char>, a: Seq<char>, b: Seq<char>)
    requires
        under(dir, a) == under(dir, b),
    ensures
        a == b,
{
    let lead = if dir.len() == 0 || dir.last() == '/' {
        dir
    } else {
        dir.push('/')
    };
    assert((lead + a).skip(lead.len() as int) =~= a);
    assert((lead + b).skip(lead.len() as int) =~= b);
}

/// The home directory in the place of a leading `~`, or nothing where there is none to put there:
/// the path then stays exactly as written. `~other/x` is another user's home, which is not ours to
/// resolve.
pub fn expand_tilde(raw: &str, home: Option<&str>) -> (r: Option<String>)
    ensures
        (r is Some) == (raw@.len() > 0 && raw@[0] == '~' && (raw@.len() == 1 || raw@[1] == '/')
            && home is Some && home->0@.len() > 0),
        r is Some ==> r->0@ == home->0@ + raw@.skip(1),
{
    let chars = chars_of(raw);
    if chars.len() == 0 || chars[0] != '~' {
        return None;
    }
    if chars.len() > 1 && chars[1] != '/' {
        return None;
    }
    match home {
        None => None,
        Some(h) => {
            if h.is_empty() {
                return None;
            }
            let rest = slice_subrange(chars.as_slice(), 1, chars.len());
            let mut r = h.to_owned();
            push_chars(&mut r, rest);
            assert(rest@ =~= raw@.skip(1));
            Some(r)
        },
    }
}

/// Where worktrees go unless told otherwise: `~/.nsh`, written out, so that the default is already
/// absolute.
pub fn default_worktree_root(home: Option<&str>) -> (r: String)
    ensures
        r@ == if home is Some && home->0@.len() > 0 {
            home->0@ + "/.nsh"@
        } else {
            ".nsh"@
        },
{
    proof {
        reveal_strlit("~/.nsh");
        reveal_strlit("/.nsh");
        assert("~/.nsh"@.skip(1) =~= "/.nsh"@);
    }
    match expand_tilde("~/.nsh", home) {
        Some(r) => r,
        None => ".nsh".to_owned(),
    }
}

/// A path with the home directory written the way people say it.
pub open spec fn said_as(path: Seq<char>, home: Option<Seq<char>>) -> Seq<char> {
    if home is Some && home->0.len() > 0 && begins(path, home->0) && (path.len() == home->0.len()
        || path[home->0.len() as int] == '/') {
        seq!['~'] + path.skip(home->0.len() as int)
    } else {
        path
    }
}

/// A path with the home directory written the way people say it.
pub fn tilde(path: &str, home: Option<&str>) -> (r: String)
    ensures
        r@ == said_as(path@, maybe(home)),
{
    if let Some(h) = home {
        let hc = chars_of(h);
        let pc = chars_of(path);
        if hc.len() > 0 && starts_with(pc.as_slice(), hc.as_slice()) && (pc.len() == hc.len()
            || pc[hc.len()] == '/') {
            let rest = slice_subrange(pc.as_slice(), hc.len(), pc.len());
            let mut r = String::new();
            r.push('~');
            push_chars(&mut r, rest);
            assert(r@ =~= seq!['~'] + path@.skip(h@.len() as int));
            return r;
        }
    }
    path.to_owned()
}

/// Writing a path the way people say it and then out again gives the path back, for a path that
/// does not itself begin with `~`.
pub proof fn a_path_can_be_said_and_read(path: Seq<char>, home: Seq<char>)
    requires
        home.len() > 0,
        path.len() > 0 ==> path[0] != '~',
    ensures
        at_home(said_as(path, Some(home)), Some(home)) == path,
{
    let s = said_as(path, Some(home));
    if s != path {
        let rest = path.skip(home.len() as int);
        assert(s.skip(1) =~= rest);
        assert(path.take(home.len() as int) =~= home);
        assert(home + rest =~= path);
        if rest.len() > 0 {
            assert(s[1] == rest[0]);
        }
    }
}

} // verus!
