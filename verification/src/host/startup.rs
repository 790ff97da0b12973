//! Coming up, and coming up again.
//!
//! Configuration goes first, because a configuration script decides where plugins are looked for,
//! and each script is waited for before the next. Then plugins, all at once. What names something
//! that nobody has declared yet is held until somebody does, and only reported when everybody has
//! had their say.

use crate::host::calls::{quoted, quoted_of, ApiError};
use crate::host::options::OptionValue;
use crate::notify::MessageLevel;
use crate::text::{begins, chars_of, decimal, decimal_of, same_text, texts};
use crate::words::{concat, contains, holds};
use crate::paths::spelling::{is_among, is_same_path, path_among};
use vstd::prelude::*;

verus! {

/// A script to load.
#[derive(Debug)]
pub struct Script {
    pub id: String,
    pub path: String,
}

/// A value somebody wrote for a setting.
#[derive(Debug)]
pub struct Wish {
    pub name: String,
    pub value: OptionValue,
}

/// A command that was asked for before anything had registered it.
#[derive(Debug)]
pub struct Held {
    pub name: String,
    pub args: Vec<String>,
}

/// One configuration, read and resolved.
#[derive(Debug)]
pub struct Resolved {
    pub model: Option<String>,
    pub system_prompt: Option<String>,
    pub options: Vec<Wish>,
    pub plugin_dirs: Vec<String>,
    pub scripts: Vec<Script>,
    pub no_builtin_plugins: bool,
}

/// Everything needed to start.
#[derive(Debug)]
pub struct Bootstrap {
    pub resolved: Resolved,
    pub cli_model: Option<String>,
    pub cli_plugin_dirs: Vec<String>,
}

/// How far coming up has got.
#[derive(Debug)]
pub struct Startup {
    /// Configuration scripts still to activate.
    pub scripts: Vec<Script>,
    /// The configuration script that is activating.
    pub active: Option<String>,
    /// Where plugins are looked for once configuration has had its say.
    pub plugin_dirs: Vec<String>,
    /// A model named on the command line, applied after configuration.
    pub cli_model: Option<String>,
    /// Folders named on the command line, kept so that a reload does not drop them.
    pub cli_plugin_dirs: Vec<String>,
    /// Settings that name something not declared yet.
    pub deferred: Vec<Wish>,
    /// Plugins still activating.
    pub loading: usize,
    /// Plugins have been looked for.
    pub discovered: bool,
    pub no_builtin_plugins: bool,
    /// Which reading of the configuration this is.
    pub generation: u32,
    /// The configuration can be read again.
    pub can_reload: bool,
    /// A model on an instance that nothing serves yet.
    pub pending_model: Option<String>,
    pub commands: Vec<Held>,
    /// A reload was asked for while something was still loading.
    pub reload_pending: bool,
    /// The model was chosen, rather than remembered.
    pub pinned: bool,
}

/// What has to happen.
#[derive(Debug, Clone, Copy, PartialEq, Eq, Structural)]
pub enum Step {
    /// Set what was held, now that somebody may have declared it.
    RetryDeferred,
    /// Load the next configuration script.
    NextScript,
    /// Apply a model that was held, or choose one.
    RetryModel,
    /// Say which settings nobody declared.
    ReportUnknown,
    /// Run the commands that came too early.
    RunHeld,
    /// Say that the workspace is up.
    AnnounceReady,
    /// Run a reload that came too early.
    RunPendingReload,
}

/// What happens once everything has loaded, in order.
pub open spec fn settled() -> Seq<Step> {
    seq![
        Step::RetryModel,
        Step::ReportUnknown,
        Step::RunHeld,
        Step::AnnounceReady,
        Step::RunPendingReload,
    ]
}

/// What is loaded next.
#[derive(Debug)]
pub enum Next {
    Script(Script),
    /// There are no scripts left: look for plugins.
    Discover,
}

impl Startup {
    pub fn new() -> (r: Startup)
        ensures
            r.scripts@.len() == 0,
            r.active is None,
            r.plugin_dirs@.len() == 0,
            r.cli_model is None,
            r.cli_plugin_dirs@.len() == 0,
            r.deferred@.len() == 0,
            r.loading == 0,
            !r.discovered,
            !r.no_builtin_plugins,
            r.generation == 0,
            !r.can_reload,
            r.pending_model is None,
            r.commands@.len() == 0,
            !r.reload_pending,
            !r.pinned,
    {
        Startup {
            scripts: Vec::new(),
            active: None,
            plugin_dirs: Vec::new(),
            cli_model: None,
            cli_plugin_dirs: Vec::new(),
            deferred: Vec::new(),
            loading: 0,
            discovered: false,
            no_builtin_plugins: false,
            generation: 0,
            can_reload: false,
            pending_model: None,
            commands: Vec::new(),
            reload_pending: false,
            pinned: false,
        }
    }

    /// Whether anything is still being loaded.
    pub open spec fn in_flight(self) -> bool {
        self.active is Some || self.loading > 0 || !self.discovered
    }

    /// Whether anything is still being loaded.
    pub fn startup_in_flight(&self) -> (r: bool)
        ensures
            r == self.in_flight(),
    {
        self.active.is_some() || self.loading > 0 || !self.discovered
    }

    /// Start, for the first time. What comes back are the settings to make, in order.
    pub fn begin_startup(&mut self, boot: Bootstrap) -> (r: Vec<Wish>)
        ensures
            wished(boot.resolved, r@),
            *final(self) == (Startup {
                can_reload: true,
                cli_plugin_dirs: boot.cli_plugin_dirs,
                no_builtin_plugins: boot.resolved.no_builtin_plugins,
                plugin_dirs: final(self).plugin_dirs,
                cli_model: boot.cli_model,
                scripts: boot.resolved.scripts,
                discovered: false,
                ..*old(self)
            }),
            texts(final(self).plugin_dirs@) == texts(boot.resolved.plugin_dirs@) + texts(
                boot.cli_plugin_dirs@,
            ),
    {
        self.can_reload = true;
        self.apply_config(boot.resolved, boot.cli_model, boot.cli_plugin_dirs)
    }

    /// Take over one configuration. Startup and reload both come through here: if they did not,
    /// "works on a fresh start" would stop meaning anything. What comes back are the settings to
    /// make, in order.
    pub fn apply_config(
        &mut self,
        resolved: Resolved,
        cli_model: Option<String>,
        cli_plugin_dirs: Vec<String>,
    ) -> (r: Vec<Wish>)
        ensures
            wished(resolved, r@),
            *final(self) == (Startup {
                cli_plugin_dirs,
                no_builtin_plugins: resolved.no_builtin_plugins,
                plugin_dirs: final(self).plugin_dirs,
                cli_model,
                scripts: resolved.scripts,
                discovered: false,
                ..*old(self)
            }),
            texts(final(self).plugin_dirs@) == texts(resolved.plugin_dirs@) + texts(
                cli_plugin_dirs@,
            ),
    {
        // `[agent]` in the file is spelled as the settings it makes, so there is exactly one path
        // from "a value somebody wrote" to "a value that took effect".
        let mut values: Vec<Wish> = Vec::new();
        if let Some(m) = resolved.model {
            values.push(Wish { name: "agent.model".to_owned(), value: OptionValue::Str(m) });
        }
        if let Some(p) = resolved.system_prompt {
            values.push(Wish { name: "agent.system_prompt".to_owned(), value: OptionValue::Str(p) });
        }
        let ghost first = values@;
        let mut options = resolved.options;
        values.append(&mut options);
        assert(values@ =~= first + resolved.options@);
        assert(values@.skip(first.len() as int) =~= resolved.options@);
        let mut dirs = resolved.plugin_dirs;
        let ghost theirs = texts(dirs@);
        let mut i: usize = 0;
        assert(texts(dirs@) =~= theirs + texts(cli_plugin_dirs@).take(0));
        while i < cli_plugin_dirs.len()
            invariant
                i <= cli_plugin_dirs@.len(),
                texts(dirs@) == theirs + texts(cli_plugin_dirs@).take(i as int),
            decreases cli_plugin_dirs@.len() - i,
        {
            let ghost was = texts(dirs@);
            dirs.push(cli_plugin_dirs[i].clone());
            assert(texts(dirs@) =~= was.push(cli_plugin_dirs@[i as int]@));
            assert(texts(cli_plugin_dirs@).take(i + 1) =~= texts(cli_plugin_dirs@).take(
                i as int,
            ).push(cli_plugin_dirs@[i as int]@));
            assert(texts(dirs@) =~= theirs + texts(cli_plugin_dirs@).take(i + 1));
            i = i + 1;
        }
        assert(texts(cli_plugin_dirs@).take(i as int) =~= texts(cli_plugin_dirs@));
        self.cli_plugin_dirs = cli_plugin_dirs;
        self.no_builtin_plugins = resolved.no_builtin_plugins;
        self.plugin_dirs = dirs;
        self.cli_model = cli_model;
        self.scripts = resolved.scripts;
        self.discovered = false;
        values
    }

    /// Make a setting now, or hold it until whoever declares it has loaded. What comes back is to
    /// be set.
    pub fn set_option_or_defer(&mut self, wish: Wish, declared: bool) -> (r: Option<Wish>)
        ensures
            *final(self) == (Startup { deferred: final(self).deferred, ..*old(self) }),
            if declared {
                r == Some(wish) && final(self).deferred@ == old(self).deferred@
            } else {
                r is None && final(self).deferred@ == old(self).deferred@.push(wish)
            },
    {
        if !declared {
            self.deferred.push(wish);
            return None;
        }
        Some(wish)
    }

    /// What was held, to be tried again in the order it came.
    pub fn take_deferred(&mut self) -> (r: Vec<Wish>)
        ensures
            r@ == old(self).deferred@,
            final(self).deferred@.len() == 0,
            *final(self) == (Startup { deferred: final(self).deferred, ..*old(self) }),
    {
        let mut held: Vec<Wish> = Vec::new();
        held.append(&mut self.deferred);
        assert(held@ =~= old(self).deferred@);
        held
    }

    /// Run a command, or hold it where nobody has registered it yet and somebody still may. What
    /// comes back is to be run.
    pub fn run_or_hold(&mut self, command: Held, registered: bool) -> (r: Option<Held>)
        ensures
            *final(self) == (Startup { commands: final(self).commands, ..*old(self) }),
            if old(self).in_flight() && !registered {
                r is None && final(self).commands@ == old(self).commands@.push(command)
            } else {
                r == Some(command) && final(self).commands@ == old(self).commands@
            },
    {
        if self.startup_in_flight() && !registered {
            self.commands.push(command);
            return None;
        }
        Some(command)
    }

    /// The commands that came too early, in the order they were asked for: two of them are a person
    /// pressing two keys.
    pub fn run_held_commands(&mut self) -> (r: Vec<Held>)
        ensures
            r@ == old(self).commands@,
            final(self).commands@.len() == 0,
            *final(self) == (Startup { commands: final(self).commands, ..*old(self) }),
    {
        let mut held: Vec<Held> = Vec::new();
        held.append(&mut self.commands);
        assert(held@ =~= old(self).commands@);
        held
    }

    /// What is loaded next: a configuration script, or plugins when there are none left.
    pub fn next_config_script(&mut self) -> (r: Next)
        ensures
            if old(self).scripts@.len() == 0 {
                r is Discover && *final(self) == *old(self)
            } else {
                let s = old(self).scripts@[0];
                &&& r == Next::Script(s)
                &&& final(self).scripts@ == old(self).scripts@.skip(1)
                &&& final(self).active is Some
                &&& final(self).active->0@ == s.id@
                &&& *final(self) == (Startup {
                    scripts: final(self).scripts,
                    active: final(self).active,
                    ..*old(self)
                })
            },
    {
        if self.scripts.len() == 0 {
            return Next::Discover;
        }
        let s = self.scripts.remove(0);
        assert(self.scripts@ =~= old(self).scripts@.skip(1));
        self.active = Some(s.id.clone());
        Next::Script(s)
    }

    /// A configuration script could not even be asked for, and nothing is activating.
    pub fn script_refused(&mut self)
        ensures
            *final(self) == (Startup { active: None, ..*old(self) }),
    {
        self.active = None;
    }

    /// Something has finished loading. What happens next follows from which phase it belongs to.
    pub fn advance_startup(&mut self, plugin: &str) -> (r: Vec<Step>)
        ensures
            if old(self).active is Some && old(self).active->0@ == plugin@ {
                &&& *final(self) == (Startup { active: None, ..*old(self) })
                &&& r@ == seq![Step::RetryDeferred, Step::NextScript]
            } else if old(self).loading > 0 {
                &&& *final(self) == (Startup {
                    loading: (old(self).loading - 1) as usize,
                    ..*old(self)
                })
                &&& r@ == (if old(self).loading == 1 {
                    seq![Step::RetryDeferred] + settled()
                } else {
                    seq![Step::RetryDeferred]
                })
            } else {
                *final(self) == *old(self) && r@.len() == 0
            },
    {
        let mut r: Vec<Step> = Vec::new();
        let ours = match &self.active {
            Some(a) => same_text(a.as_str(), plugin),
            None => false,
        };
        if ours {
            self.active = None;
            // A configuration script may have declared settings of its own.
            r.push(Step::RetryDeferred);
            r.push(Step::NextScript);
            assert(r@ =~= seq![Step::RetryDeferred, Step::NextScript]);
            return r;
        }
        if self.loading > 0 {
            self.loading = self.loading - 1;
            r.push(Step::RetryDeferred);
            if self.loading == 0 {
                let mut more = settle();
                r.append(&mut more);
                assert(r@ =~= seq![Step::RetryDeferred] + settled());
            } else {
                assert(r@ =~= seq![Step::RetryDeferred]);
            }
        }
        r
    }

    /// Configuration has had its say, and plugins are looked for. What comes back is the model the
    /// command line named, which is set now: last, so that it beats every file.
    pub fn begin_discovery(&mut self) -> (r: Option<String>)
        ensures
            r == old(self).cli_model,
            *final(self) == (Startup { discovered: true, cli_model: None, ..*old(self) }),
    {
        self.discovered = true;
        self.cli_model.take()
    }

    /// The folders plugins are looked for in, each once and in the order they were named.
    pub fn folders(&mut self) -> (r: Vec<String>)
        ensures
            texts(r@) == each_once(texts(old(self).plugin_dirs@)),
            final(self).plugin_dirs@.len() == 0,
            *final(self) == (Startup { plugin_dirs: final(self).plugin_dirs, ..*old(self) }),
    {
        let mut dirs: Vec<String> = Vec::new();
        dirs.append(&mut self.plugin_dirs);
        assert(dirs@ =~= old(self).plugin_dirs@);
        let ghost all = texts(dirs@);
        let mut r: Vec<String> = Vec::new();
        let mut i: usize = 0;
        assert(texts(r@) =~= each_once(all.take(0)));
        while i < dirs.len()
            invariant
                i <= dirs@.len(),
                all == texts(dirs@),
                texts(r@) == each_once(all.take(i as int)),
            decreases dirs@.len() - i,
        {
            proof {
                assert(all.take(i + 1).drop_last() =~= all.take(i as int));
                assert(all.take(i + 1).last() == dirs@[i as int]@);
                lemma_each_once(all.take(i as int), dirs@[i as int]@);
            }
            if !path_among(&r, dirs[i].as_str()) {
                let ghost was = texts(r@);
                r.push(dirs[i].clone());
                assert(texts(r@) =~= was.push(dirs@[i as int]@));
            }
            i = i + 1;
        }
        assert(all.take(i as int) =~= all);
        r
    }

    /// So many plugins have been asked for, and what happens where there is nothing to wait for.
    pub fn end_discovery(&mut self, asked: usize) -> (r: Vec<Step>)
        requires
            old(self).loading + asked <= usize::MAX,
        ensures
            *final(self) == (Startup {
                loading: (old(self).loading + asked) as usize,
                ..*old(self)
            }),
            r@ == (if final(self).loading == 0 {
                settled()
            } else {
                seq![]
            }),
    {
        self.loading = self.loading + asked;
        if self.loading == 0 {
            settle()
        } else {
            let r: Vec<Step> = Vec::new();
            assert(r@ =~= seq![]);
            r
        }
    }

    /// Whether a reload that came too early is to be run now.
    pub fn run_pending_reload(&mut self) -> (r: bool)
        ensures
            r == old(self).reload_pending,
            *final(self) == (Startup { reload_pending: false, ..*old(self) }),
    {
        let r = self.reload_pending;
        self.reload_pending = false;
        r
    }

    /// A model that was held until its provider had registered.
    pub fn take_pending_model(&mut self) -> (r: Option<String>)
        ensures
            r == old(self).pending_model,
            *final(self) == (Startup { pending_model: None, ..*old(self) }),
    {
        self.pending_model.take()
    }

    /// Somebody asked for the configuration to be read again. A reload that comes while something
    /// is loading is remembered rather than refused.
    pub fn reload_config(&mut self) -> (r: Reload)
        ensures
            r == (if old(self).active is Some || old(self).loading > 0 {
                if old(self).reload_pending {
                    Reload::Wait
                } else {
                    Reload::Say(MessageLevel::Info, "still loading; reloading when it settles")
                }
            } else if !old(self).can_reload {
                Reload::Say(MessageLevel::Error, "this session cannot reload configuration")
            } else {
                Reload::Read
            }),
            *final(self) == (if old(self).active is Some || old(self).loading > 0 {
                Startup { reload_pending: true, ..*old(self) }
            } else {
                *old(self)
            }),
    {
        if self.active.is_some() || self.loading > 0 {
            if self.reload_pending {
                return Reload::Wait;
            }
            self.reload_pending = true;
            return Reload::Say(MessageLevel::Info, "still loading; reloading when it settles");
        }
        if !self.can_reload {
            return Reload::Say(MessageLevel::Error, "this session cannot reload configuration");
        }
        Reload::Read
    }

    /// The files have been read again. One that no longer parses leaves the running configuration
    /// alone, and what is said of it comes back; otherwise everything starts over, and the settings
    /// to make come back in order.
    pub fn reload_read(&mut self, read: Result<Resolved, String>) -> (r: Result<Vec<Wish>, String>)
        requires
            old(self).generation < u32::MAX,
        ensures
            match read {
                Err(e) => {
                    &&& r is Err
                    &&& r->Err_0@ == "reload failed, keeping the current config: "@ + e@
                    &&& *final(self) == *old(self)
                },
                Ok(resolved) => {
                    &&& r is Ok
                    &&& wished(resolved, r->Ok_0@)
                    &&& final(self).generation == old(self).generation + 1
                    &&& final(self).deferred@.len() == 0
                    &&& texts(final(self).cli_plugin_dirs@) == texts(old(self).cli_plugin_dirs@)
                    &&& texts(final(self).plugin_dirs@) == texts(resolved.plugin_dirs@) + texts(
                        old(self).cli_plugin_dirs@,
                    )
                    &&& *final(self) == (Startup {
                        generation: final(self).generation,
                        deferred: final(self).deferred,
                        cli_plugin_dirs: final(self).cli_plugin_dirs,
                        no_builtin_plugins: resolved.no_builtin_plugins,
                        plugin_dirs: final(self).plugin_dirs,
                        scripts: resolved.scripts,
                        discovered: false,
                        ..*old(self)
                    })
                },
            },
    {
        match read {
            Err(e) => Err(concat("reload failed, keeping the current config: ", e.as_str())),
            Ok(resolved) => {
                self.generation = self.generation + 1;
                self.deferred.clear();
                let model = self.cli_model.take();
                let mut dirs: Vec<String> = Vec::new();
                dirs.append(&mut self.cli_plugin_dirs);
                assert(dirs@ =~= old(self).cli_plugin_dirs@);
                Ok(self.apply_config(resolved, model, dirs))
            },
        }
    }

    /// The address of an entry module, by its path. Nothing comes back where the path is not an
    /// absolute one, and what is said of it does.
    pub fn load_script(&self, path: &str) -> (r: Result<String, String>)
        ensures
            exists|windows: bool|
                match #[trigger] url_of_path(path@, windows) {
                    None => r is Err && r->Err_0@ == path@ + ": not an absolute path"@,
                    Some(u) => {
                        &&& r is Ok
                        &&& r->Ok_0@ == entry_url(u, self.generation as nat)
                        &&& begins(u, "file://"@)
                        &&& !u.contains('?')
                    },
                },
    {
        match file_url(path) {
            None => Err(concat(path, ": not an absolute path")),
            Some(u) => {
                let r = self.load_url(u.as_str());
                assert(entry_url(u@, self.generation as nat) == r@);
                Ok(r)
            },
        }
    }

    /// The address an entry module is loaded from. After a reload the generation makes it one that
    /// has not been seen, so that the file is read again.
    pub fn load_url(&self, url: &str) -> (r: String)
        ensures
            r@ == entry_url(url@, self.generation as nat),
    {
        if self.generation > 0 && !contains(chars_of(url).as_slice(), "?v=") {
            let mut r = url.to_owned();
            r.push_str("?v=");
            r.push_str(decimal_of(self.generation as u64).as_str());
            return r;
        }
        url.to_owned()
    }
}

/// The address an entry module is loaded from, in a generation.
pub open spec fn entry_url(url: Seq<char>, generation: nat) -> Seq<char> {
    if generation > 0 && !holds(url, "?v="@) {
        url + "?v="@ + decimal(generation)
    } else {
        url
    }
}

/// The URL that `url` makes of a path, on Windows or elsewhere, and nothing where the path is not
/// absolute there.
pub uninterp spec fn url_of_path(path: Seq<char>, windows: bool) -> Option<Seq<char>>;

/// `url::Url::from_file_path`, and the URL as text. Where the path is not absolute there is none.
/// What counts as absolute, and how the path is spelled out, is left to the name: it is a function of
/// the path and of whether paths are those of Windows, which the program is built for or is not. The
/// URL is in the `file` scheme and holds no question mark, since that is one of the characters that
/// are escaped in a path.
#[verifier::external_body]
fn file_url(path: &str) -> (r: Option<String>)
    ensures
        exists|windows: bool| #[trigger] url_of_path(path@, windows) == (match r {
            Some(u) => Some(u@),
            None => None,
        }),
        r is Some ==> begins(r->0@, "file://"@) && !r->0@.contains('?'),
{
    match url::Url::from_file_path(path) {
        Ok(u) => Some(u.to_string()),
        Err(()) => None,
    }
}

/// What becomes of asking for a reload.
#[derive(Debug, Clone, Copy)]
pub enum Reload {
    /// It is remembered, and has been said.
    Wait,
    Say(MessageLevel, &'static str),
    /// Read the files. They are read *first*.
    Read,
}

/// Whether these are the settings a configuration makes, in order: its model, its system prompt, and
/// the rest as they stand.
pub open spec fn wished(c: Resolved, v: Seq<Wish>) -> bool {
    let m: int = if c.model is Some {
        1
    } else {
        0
    };
    let p: int = if c.system_prompt is Some {
        1
    } else {
        0
    };
    &&& v.len() == m + p + c.options@.len()
    &&& m == 1 ==> v[0].name@ == "agent.model"@ && v[0].value == OptionValue::Str(c.model->0)
    &&& p == 1 ==> v[m].name@ == "agent.system_prompt"@ && v[m].value == OptionValue::Str(
        c.system_prompt->0,
    )
    &&& v.skip(m + p) == c.options@
}

fn settle() -> (r: Vec<Step>)
    ensures
        r@ == settled(),
{
    let r = vec![
        Step::RetryModel,
        Step::ReportUnknown,
        Step::RunHeld,
        // Before a queued reload, which tears all of this down and builds it again.
        Step::AnnounceReady,
        Step::RunPendingReload,
    ];
    assert(r@ =~= settled());
    r
}

/// Each of some paths once, where it first stands and as it is spelled there.
pub open spec fn each_once(v: Seq<Seq<char>>) -> Seq<Seq<char>>
    decreases v.len(),
{
    if v.len() == 0 {
        seq![]
    } else if is_among(v.drop_last(), v.last()) {
        each_once(v.drop_last())
    } else {
        each_once(v.drop_last()).push(v.last())
    }
}

/// No path is lost by naming each once.
proof fn lemma_each_once(v: Seq<Seq<char>>, x: Seq<char>)
    ensures
        is_among(each_once(v), x) == is_among(v, x),
    decreases v.len(),
{
    if v.len() > 0 {
        let less = v.drop_last();
        let e = each_once(less);
        lemma_each_once(less, x);
        if is_among(less, x) {
            let k = choose|k: int| 0 <= k < less.len() && is_same_path(#[trigger] less[k], x);
            assert(is_same_path(v[k], x));
        }
        if is_among(v, x) && !is_among(less, x) {
            let k = choose|k: int| 0 <= k < v.len() && is_same_path(#[trigger] v[k], x);
            if k < less.len() {
                assert(is_same_path(less[k], x));
            }
            assert(is_same_path(v.last(), x));
            if is_among(less, v.last()) {
                let j = choose|j: int|
                    0 <= j < less.len() && is_same_path(#[trigger] less[j], v.last());
                assert(is_same_path(less[j], x));
            }
        }
        if !is_among(less, v.last()) {
            let all = each_once(v);
            assert(all[e.len() as int] == v.last());
            if is_among(e, x) {
                let k = choose|k: int| 0 <= k < e.len() && is_same_path(#[trigger] e[k], x);
                assert(is_same_path(all[k], x));
            }
            if is_among(all, x) && !is_among(e, x) {
                let k = choose|k: int| 0 <= k < all.len() && is_same_path(#[trigger] all[k], x);
                if k < e.len() {
                    assert(is_same_path(e[k], x));
                }
                assert(is_same_path(v[v.len() - 1], x));
            }
            if is_same_path(v.last(), x) {
                assert(is_same_path(all[e.len() as int], x));
            }
        }
    }
}

/// Whether a text is among some.
pub fn listed(v: &Vec<String>, s: &str) -> (r: bool)
    ensures
        r == texts(v@).contains(s@),
{
    let mut i: usize = 0;
    while i < v.len()
        invariant
            i <= v@.len(),
            forall|j: int| 0 <= j < i ==> (#[trigger] v@[j])@ != s@,
        decreases v@.len() - i,
    {
        if same_text(v[i].as_str(), s) {
            assert(texts(v@)[i as int] == s@);
            return true;
        }
        i = i + 1;
    }
    proof {
        if texts(v@).contains(s@) {
            let k = choose|k: int| 0 <= k < texts(v@).len() && texts(v@)[k] == s@;
            assert(v@[k]@ != s@);
        }
    }
    false
}

// ---- plugins ----------------------------------------------------------------

/// A plugin that is part of the program.
#[derive(Debug)]
pub struct Bundled {
    pub name: String,
    /// What it says of itself can be read.
    pub readable: bool,
}

/// The plugins that are part of the program and are loaded: those that nobody switched off, and
/// whose declared permissions are known.
pub open spec fn bundled_loaded(all: Seq<Bundled>, none: bool, disabled: Seq<Seq<char>>) -> Seq<int>
    decreases all.len(),
{
    if all.len() == 0 || none {
        seq![]
    } else {
        let rest = bundled_loaded(all.drop_last(), none, disabled);
        if all.last().readable && !disabled.contains(all.last().name@) {
            rest.push(all.len() - 1)
        } else {
            rest
        }
    }
}

/// The plugins that are part of the program and are loaded, in order. They go first, so that
/// somebody's own plugin, registering the same key, wins by loading after.
pub fn discover_plugins(all: &Vec<Bundled>, none: bool, disabled: &Vec<String>) -> (r: Vec<usize>)
    ensures
        r@.map_values(|i: usize| i as int) == bundled_loaded(all@, none, texts(disabled@)),
{
    let mut r: Vec<usize> = Vec::new();
    if none {
        assert(r@.map_values(|i: usize| i as int) =~= seq![]);
        return r;
    }
    let mut i: usize = 0;
    assert(r@.map_values(|i: usize| i as int) =~= bundled_loaded(
        all@.take(0),
        none,
        texts(disabled@),
    ));
    while i < all.len()
        invariant
            i <= all@.len(),
            !none,
            r@.map_values(|i: usize| i as int) == bundled_loaded(
                all@.take(i as int),
                none,
                texts(disabled@),
            ),
        decreases all@.len() - i,
    {
        proof {
            assert(all@.take(i + 1).drop_last() =~= all@.take(i as int));
            assert(all@.take(i + 1).last() == all@[i as int]);
        }
        if all[i].readable && !listed(disabled, all[i].name.as_str()) {
            let ghost was = r@.map_values(|i: usize| i as int);
            r.push(i);
            assert(r@.map_values(|i: usize| i as int) =~= was.push(i as int));
        }
        i = i + 1;
    }
    assert(all@.take(i as int) =~= all@);
    r
}

// ---- what is said -----------------------------------------------------------

/// What is said of a setting nobody declared.
pub open spec fn unknown_said(name: Seq<char>, shown: Seq<char>) -> Seq<char> {
    "option "@ + quoted_of(name) + " = "@ + shown
        + " is not declared by anything. Is the plugin that provides it installed?"@
}

/// What is said of a setting nobody declared, with its value as it would be shown.
pub fn report_unknown_option(name: &str, shown: &str) -> (r: String)
    ensures
        r@ == unknown_said(name@, shown@),
{
    let mut r = "option ".to_owned();
    r.push_str(quoted(name).as_str());
    r.push_str(" = ");
    r.push_str(shown);
    r.push_str(" is not declared by anything. Is the plugin that provides it installed?");
    r
}

/// What is said of a setting that was refused.
pub open spec fn described(name: Seq<char>, e: ApiError) -> Seq<char> {
    match e {
        ApiError::NotFound(what) => what@,
        ApiError::InvalidArgument(message) => message@,
        ApiError::NotPermitted(capability) => "option "@ + name + ": "@
            + "NotPermitted { capability: "@ + quoted_of(capability@) + " }"@,
        ApiError::Denied(reason) => "option "@ + name + ": "@ + "Denied { reason: "@ + quoted_of(
            reason@,
        ) + " }"@,
        ApiError::Busy(message) => "option "@ + name + ": "@ + "Busy { message: "@ + quoted_of(
            message@,
        ) + " }"@,
        ApiError::Internal(message) => "option "@ + name + ": "@ + "Internal { message: "@
            + quoted_of(message@) + " }"@,
    }
}

fn describe(name: &str, lead: &str, text: &str) -> (r: String)
    ensures
        r@ == "option "@ + name@ + ": "@ + lead@ + quoted_of(text@) + " }"@,
{
    let mut r = "option ".to_owned();
    r.push_str(name);
    r.push_str(": ");
    r.push_str(lead);
    r.push_str(quoted(text).as_str());
    r.push_str(" }");
    r
}

/// Turn a refused setting into something a person can act on.
pub fn describe_api_error(name: &str, e: &ApiError) -> (r: String)
    ensures
        r@ == described(name@, *e),
{
    match e {
        ApiError::NotFound(what) => what.clone(),
        ApiError::InvalidArgument(message) => message.clone(),
        ApiError::NotPermitted(s) => describe(name, "NotPermitted { capability: ", s.as_str()),
        ApiError::Denied(s) => describe(name, "Denied { reason: ", s.as_str()),
        ApiError::Busy(s) => describe(name, "Busy { message: ", s.as_str()),
        ApiError::Internal(s) => describe(name, "Internal { message: ", s.as_str()),
    }
}

/// After a reload the file is read again: an address is never one that an earlier generation used.
pub proof fn a_reload_reads_the_file_again(url: Seq<char>, a: nat, b: nat)
    requires
        a != b,
        !holds(url, "?v="@),
    ensures
        entry_url(url, a) != entry_url(url, b),
{
    reveal_strlit("?v=");
    let x = entry_url(url, a);
    let y = entry_url(url, b);
    if x == y {
        if a > 0 && b > 0 {
            let n = url.len() as int + 3;
            assert(x.skip(n) =~= decimal(a));
            assert(y.skip(n) =~= decimal(b));
            crate::host::swarm::lemma_decimal_once(a, b);
        } else if a > 0 {
            assert(x.len() > url.len());
        } else {
            assert(y.len() > url.len());
        }
    }
}

/// A folder that is named is looked in, and only once, however often it is named and however it is
/// spelled.
pub proof fn each_folder_is_looked_in_once(named: Seq<Seq<char>>, folder: Seq<char>)
    ensures
        is_among(each_once(named), folder) == is_among(named, folder),
        forall|i: int, j: int|
            0 <= i < j < each_once(named).len() ==> !is_same_path(
                #[trigger] each_once(named)[i],
                #[trigger] each_once(named)[j],
            ),
{
    lemma_once(named);
    lemma_each_once(named, folder);
}

proof fn lemma_once(v: Seq<Seq<char>>)
    ensures
        forall|i: int, j: int|
            0 <= i < j < each_once(v).len() ==> !is_same_path(
                #[trigger] each_once(v)[i],
                #[trigger] each_once(v)[j],
            ),
    decreases v.len(),
{
    if v.len() > 0 {
        let less = v.drop_last();
        let e = each_once(less);
        lemma_once(less);
        lemma_each_once(less, v.last());
        let all = each_once(v);
        assert forall|i: int, j: int| 0 <= i < j < all.len() implies !is_same_path(
            #[trigger] all[i],
            #[trigger] all[j],
        ) by {
            assert(all[i] == e[i]);
            if j < e.len() {
                assert(all[j] == e[j]);
            }
        }
    }
}

} // verus!
