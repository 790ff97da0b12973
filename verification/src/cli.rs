//! The one-shot commands: what they decide, and what they print.

use crate::host::calls::PluginPermission;
use crate::markdown::block::push_spaces;
use crate::markdown::model::spaces;
use crate::text::{
    chars_of, decimal, decimal_of, find_from, found_from, is_blank, lemma_found_from,
    lemma_trim_blank, same_text, string_of, texts, trim, trim_end, trim_end_of, trim_of,
};
use crate::words::{concat, join_with, joined_with};
use vstd::prelude::*;
use vstd::slice::slice_subrange;

pub mod managing;
pub mod saying;

verus! {

/// What the model is told first, when nobody has said otherwise.
pub const SYSTEM_PROMPT: &'static str = "You are the agent inside neosh, a terminal-first coding workspace. Be concise. Use the tools available to you rather than guessing about the contents of files.";

/// What the model is told first, when nobody has said otherwise.
pub fn default_system_prompt() -> (r: String)
    ensures
        r@ == SYSTEM_PROMPT@,
{
    SYSTEM_PROMPT.to_owned()
}

// ---- which program this is --------------------------------------------------

/// How the program was started.
#[derive(Debug, Clone, Copy)]
pub struct Started {
    pub serve: bool,
    pub no_daemon: bool,
    pub clean: bool,
    /// It draws to a terminal, rather than speaking over a pipe.
    pub terminal: bool,
    pub mock: bool,
    pub list_models: bool,
}

/// Whether to be a terminal looking at a workspace, which is the ordinary case. `--clean` stays in
/// one process on purpose: attaching to a workspace that runs with somebody's real configuration is
/// the opposite of reading and writing nothing.
pub fn is_client(s: Started) -> (r: bool)
    ensures
        r == (!s.serve && !s.no_daemon && !s.clean && s.terminal && !s.mock && !s.list_models),
{
    !s.serve && !s.no_daemon && !s.clean && s.terminal && !s.mock && !s.list_models
}

// ---- words ------------------------------------------------------------------

/// A text with spaces in front of it, up to a width in characters.
pub open spec fn right_aligned(s: Seq<char>, width: int) -> Seq<char> {
    if s.len() < width {
        spaces((width - s.len()) as nat) + s
    } else {
        s
    }
}

/// A text with spaces behind it, up to a width in characters.
pub open spec fn left_aligned(s: Seq<char>, width: int) -> Seq<char> {
    if s.len() < width {
        s + spaces((width - s.len()) as nat)
    } else {
        s
    }
}

fn align_right(s: &str, width: usize) -> (r: String)
    ensures
        r@ == right_aligned(s@, width as int),
{
    let n = chars_of(s).len();
    if n < width {
        let mut r = String::new();
        push_spaces(&mut r, width - n);
        r.push_str(s);
        assert(r@ =~= right_aligned(s@, width as int));
        r
    } else {
        s.to_owned()
    }
}

pub fn align_left(s: &str, width: usize) -> (r: String)
    ensures
        r@ == left_aligned(s@, width as int),
{
    let n = chars_of(s).len();
    let mut r = s.to_owned();
    if n < width {
        push_spaces(&mut r, width - n);
    }
    r
}

/// Two figures, at least.
pub open spec fn two_figures(n: nat) -> Seq<char> {
    if n < 10 {
        "0"@ + decimal(n)
    } else {
        decimal(n)
    }
}

/// A duration a person would say out loud.
pub open spec fn said_aloud(secs: nat) -> Seq<char> {
    if secs < 60 {
        decimal(secs) + "s"@
    } else if secs < 3600 {
        decimal(secs / 60) + "m"@
    } else {
        decimal(secs / 3600) + "h "@ + two_figures(secs % 3600 / 60) + "m"@
    }
}

/// A duration a person would say out loud.
pub fn friendly(secs: u64) -> (r: String)
    ensures
        r@ == said_aloud(secs as nat),
{
    if secs < 60 {
        return concat(decimal_of(secs).as_str(), "s");
    }
    if secs < 3600 {
        return concat(decimal_of(secs / 60).as_str(), "m");
    }
    let mut r = decimal_of(secs / 3600);
    r.push_str("h ");
    let minutes = secs % 3600 / 60;
    if minutes < 10 {
        r.push_str("0");
    }
    r.push_str(decimal_of(minutes).as_str());
    r.push_str("m");
    assert(r@ =~= said_aloud(secs as nat));
    r
}

// ---- status -----------------------------------------------------------------

/// A turn that is running.
#[derive(Debug)]
pub struct RunningTurn {
    pub elapsed_secs: u64,
    pub label: String,
    pub cwd: String,
}

/// What a workspace is holding.
#[derive(Debug)]
pub struct Status {
    pub uptime_secs: u64,
    pub conversations: usize,
    pub attached: bool,
    pub idle_secs: u64,
    pub running: Vec<RunningTurn>,
}

/// The first line about a workspace.
pub open spec fn headline(s: Status) -> Seq<char> {
    "running  \u{b7}  up "@ + said_aloud(s.uptime_secs as nat) + "  \u{b7}  "@ + decimal(
        s.conversations as nat,
    ) + " "@ + (if s.conversations == 1 {
        "conversation"@
    } else {
        "conversations"@
    }) + "  \u{b7}  "@ + (if s.attached {
        "a terminal is attached"@
    } else {
        "nobody watching for "@ + said_aloud(s.idle_secs as nat)
    })
}

/// A line about a turn that is running.
pub open spec fn turn_line(t: RunningTurn) -> Seq<char> {
    "  "@ + right_aligned(said_aloud(t.elapsed_secs as nat), 8) + "  "@ + t.label@ + "  ("@ + t.cwd@
        + ")"@
}

/// What is printed about a workspace.
pub open spec fn status_lines(s: Option<Status>, socket: Seq<char>) -> Seq<Seq<char>> {
    match s {
        None => seq!["no workspace running ("@ + socket + ")"@],
        Some(s) => if s.running@.len() == 0 {
            seq![headline(s), "nothing running"@]
        } else {
            seq![headline(s), ""@] + s.running@.map_values(|t: RunningTurn| turn_line(t))
        },
    }
}

fn say_headline(s: &Status) -> (r: String)
    ensures
        r@ == headline(*s),
{
    let mut r = "running  \u{b7}  up ".to_owned();
    r.push_str(friendly(s.uptime_secs).as_str());
    r.push_str("  \u{b7}  ");
    r.push_str(decimal_of(s.conversations as u64).as_str());
    r.push_str(" ");
    r.push_str(
        if s.conversations == 1 {
            "conversation"
        } else {
            "conversations"
        },
    );
    r.push_str("  \u{b7}  ");
    if s.attached {
        r.push_str("a terminal is attached");
    } else {
        let mut idle = "nobody watching for ".to_owned();
        idle.push_str(friendly(s.idle_secs).as_str());
        r.push_str(idle.as_str());
    }
    r
}

fn say_turn(t: &RunningTurn) -> (r: String)
    ensures
        r@ == turn_line(*t),
{
    let mut r = "  ".to_owned();
    r.push_str(align_right(friendly(t.elapsed_secs).as_str(), 8).as_str());
    r.push_str("  ");
    r.push_str(t.label.as_str());
    r.push_str("  (");
    r.push_str(t.cwd.as_str());
    r.push_str(")");
    r
}

fn say_none(socket: &str) -> (r: String)
    ensures
        r@ == "no workspace running ("@ + socket@ + ")"@,
{
    let mut r = "no workspace running (".to_owned();
    r.push_str(socket);
    r.push_str(")");
    r
}

/// What is printed about a workspace: how long it has been up, and what is running in it.
pub fn run_status(s: Option<&Status>, socket: &str) -> (r: Vec<String>)
    ensures
        texts(r@) == status_lines(
            match s {
                Some(x) => Some(*x),
                None => None,
            },
            socket@,
        ),
{
    let mut r: Vec<String> = Vec::new();
    match s {
        None => {
            r.push(say_none(socket));
            assert(texts(r@) =~= seq!["no workspace running ("@ + socket@ + ")"@]);
        },
        Some(s) => {
            r.push(say_headline(s));
            if s.running.len() == 0 {
                r.push("nothing running".to_owned());
                assert(texts(r@) =~= seq![headline(*s), "nothing running"@]);
                return r;
            }
            r.push("".to_owned());
            let ghost lead = texts(r@);
            let ghost all = s.running@.map_values(|t: RunningTurn| turn_line(t));
            assert(lead =~= seq![headline(*s), ""@]);
            let mut i: usize = 0;
            assert(texts(r@) =~= lead + all.take(0));
            while i < s.running.len()
                invariant
                    i <= s.running@.len(),
                    all == s.running@.map_values(|t: RunningTurn| turn_line(t)),
                    texts(r@) == lead + all.take(i as int),
                decreases s.running@.len() - i,
            {
                let ghost was = texts(r@);
                r.push(say_turn(&s.running[i]));
                assert(texts(r@) =~= was.push(all[i as int]));
                assert(all.take(i + 1) =~= all.take(i as int).push(all[i as int]));
                assert(texts(r@) =~= lead + all.take(i + 1));
                i = i + 1;
            }
            assert(all.take(i as int) =~= all);
        },
    }
    r
}

/// What is printed before a workspace is stopped, of each turn that is about to be.
pub fn say_stopping(t: &RunningTurn) -> (r: String)
    ensures
        r@ == "stopping after "@ + said_aloud(t.elapsed_secs as nat) + ": "@ + t.label@,
{
    let mut r = "stopping after ".to_owned();
    r.push_str(friendly(t.elapsed_secs).as_str());
    r.push_str(": ");
    r.push_str(t.label.as_str());
    r
}

/// What is printed once a workspace has been asked to stop.
pub fn run_stop(stopped: bool, socket: &str) -> (r: String)
    ensures
        r@ == (if stopped {
            "stopped"@
        } else {
            "no workspace running ("@ + socket@ + ")"@
        }),
{
    if stopped {
        "stopped".to_owned()
    } else {
        say_none(socket)
    }
}

// ---- the swarm --------------------------------------------------------------

fn quoted_line(lead: &str, text: &str, tail: &str) -> (r: String)
    ensures
        r@ == lead@ + text@ + tail@,
{
    let mut r = lead.to_owned();
    r.push_str(text);
    r.push_str(tail);
    r
}

/// What is printed of this machine's identity: the key, and the lines to paste on the others.
pub fn run_swarm_id(id: &str, machine: &str) -> (r: Vec<String>)
    ensures
        texts(r@) == seq![
            id@,
            ""@,
            "On every other computer, put this in `[swarm]`:"@,
            ""@,
            "  [[swarm.peers]]"@,
            "  addr = \""@ + machine@ + ":7717\"   # whatever your network calls this machine"@,
            "  id   = \""@ + id@ + "\""@,
            "  name = \""@ + machine@ + "\""@,
        ],
{
    let mut r: Vec<String> = Vec::new();
    r.push(id.to_owned());
    r.push("".to_owned());
    r.push("On every other computer, put this in `[swarm]`:".to_owned());
    r.push("".to_owned());
    r.push("  [[swarm.peers]]".to_owned());
    r.push(
        quoted_line(
            "  addr = \"",
            machine,
            ":7717\"   # whatever your network calls this machine",
        ),
    );
    r.push(quoted_line("  id   = \"", id, "\""));
    r.push(quoted_line("  name = \"", machine, "\""));
    assert(texts(r@) =~= seq![
        id@,
        ""@,
        "On every other computer, put this in `[swarm]`:"@,
        ""@,
        "  [[swarm.peers]]"@,
        "  addr = \""@ + machine@ + ":7717\"   # whatever your network calls this machine"@,
        "  id   = \""@ + id@ + "\""@,
        "  name = \""@ + machine@ + "\""@,
    ]);
    r
}

// ---- starting out -----------------------------------------------------------

/// Each of some texts between two others.
pub open spec fn each_between(v: Seq<Seq<char>>, lead: Seq<char>, tail: Seq<char>) -> Seq<Seq<char>> {
    v.map_values(|s: Seq<char>| lead + s + tail)
}

fn push_between(r: &mut Vec<String>, v: &Vec<String>, lead: &str, tail: &str)
    ensures
        texts(final(r)@) == texts(old(r)@) + each_between(texts(v@), lead@, tail@),
{
    let ghost first = texts(r@);
    let ghost all = each_between(texts(v@), lead@, tail@);
    let mut i: usize = 0;
    assert(texts(r@) =~= first + all.take(0));
    while i < v.len()
        invariant
            i <= v@.len(),
            all == each_between(texts(v@), lead@, tail@),
            texts(r@) == first + all.take(i as int),
        decreases v@.len() - i,
    {
        let ghost was = texts(r@);
        r.push(quoted_line(lead, v[i].as_str(), tail));
        assert(all[i as int] == lead@ + v@[i as int]@ + tail@);
        assert(texts(r@) =~= was.push(all[i as int]));
        assert(all.take(i + 1) =~= all.take(i as int).push(all[i as int]));
        assert(texts(r@) =~= first + all.take(i + 1));
        i = i + 1;
    }
    assert(all.take(i as int) =~= all);
}

/// What is printed once a starter configuration has been written: what was, what was left alone, and
/// what to do next.
pub fn run_init(written: &Vec<String>, kept: &Vec<String>, project: bool, init: &str) -> (r: Vec<
    String,
>)
    ensures
        texts(r@) == each_between(texts(written@), "wrote   "@, ""@) + each_between(
            texts(kept@),
            "kept    "@,
            " (--force to replace)"@,
        ) + seq![
            if project {
                "\nEdit .neosh/config.toml, then `neosh trust` to let it run code."@
            } else {
                "\nEdit "@ + init@ + ". Run `npx tsc --noEmit` there for type checking."@
            },
        ],
{
    let mut r: Vec<String> = Vec::new();
    push_between(&mut r, written, "wrote   ", "");
    assert(texts(r@) =~= each_between(texts(written@), "wrote   "@, ""@));
    push_between(&mut r, kept, "kept    ", " (--force to replace)");
    let ghost was = texts(r@);
    let last = if project {
        "\nEdit .neosh/config.toml, then `neosh trust` to let it run code.".to_owned()
    } else {
        quoted_line("\nEdit ", init, ". Run `npx tsc --noEmit` there for type checking.")
    };
    let ghost l = last@;
    r.push(last);
    assert(texts(r@) =~= was + seq![l]);
    r
}

// ---- paths ------------------------------------------------------------------

/// A line about a path: what it is, where it is, whether it is there, and a note.
pub fn path_row(label: &str, path: &str, there: bool, note: &str) -> (r: String)
    ensures
        r@ == left_aligned(label@, 9) + " "@ + path@ + (if there {
            ""@
        } else {
            "  (does not exist)"@
        }) + note@,
{
    let mut r = align_left(label, 9);
    r.push_str(" ");
    r.push_str(path);
    r.push_str(
        if there {
            ""
        } else {
            "  (does not exist)"
        },
    );
    r.push_str(note);
    r
}

/// How far a project's own configuration is trusted.
#[derive(Debug, Clone, Copy, PartialEq, Eq, Structural)]
pub enum Trust {
    NoProjectConfig,
    Trusted,
    Untrusted,
    Stale,
}

/// What is said of it.
pub fn trust_note(t: Trust) -> (r: &'static str)
    ensures
        r == (match t {
            Trust::NoProjectConfig => "",
            Trust::Trusted => "   trusted",
            Trust::Untrusted => "   untrusted \u{2014} run `neosh trust`",
            Trust::Stale => "   changed since trusted \u{2014} review, then `neosh trust`",
        }),
{
    match t {
        Trust::NoProjectConfig => "",
        Trust::Trusted => "   trusted",
        Trust::Untrusted => "   untrusted \u{2014} run `neosh trust`",
        Trust::Stale => "   changed since trusted \u{2014} review, then `neosh trust`",
    }
}

/// A file that trust covers, as it is shown before anybody is asked to trust it. What is not text is
/// named rather than passed over.
pub fn show_covered(path: &str, text: Option<&str>) -> (r: Vec<String>)
    ensures
        texts(r@) == (match text {
            Some(t) => seq!["--- "@ + path@ + " ---"@, trim_end_of(t@)],
            None => seq!["--- "@ + path@ + " --- (not shown)"@],
        }),
{
    let mut r: Vec<String> = Vec::new();
    match text {
        Some(t) => {
            r.push(quoted_line("--- ", path, " ---"));
            let cs = chars_of(t);
            r.push(string_of(trim_end(cs.as_slice())));
            assert(texts(r@) =~= seq!["--- "@ + path@ + " ---"@, trim_end_of(t@)]);
        },
        None => {
            r.push(quoted_line("--- ", path, " --- (not shown)"));
            assert(texts(r@) =~= seq!["--- "@ + path@ + " --- (not shown)"@]);
        },
    }
    r
}

// ---- plugins ----------------------------------------------------------------

/// The words some permissions are spelled with.
pub open spec fn permission_words(v: Seq<PluginPermission>) -> Seq<Seq<char>> {
    v.map_values(|p: PluginPermission| p.called())
}

/// The word a permission is spelled with in a manifest, so that a refusal and a listing agree.
pub fn permission_name(p: PluginPermission) -> (r: String)
    ensures
        r@ == p.called(),
{
    p.name().to_owned()
}

fn permission_names(v: &Vec<PluginPermission>) -> (r: Vec<String>)
    ensures
        texts(r@) == permission_words(v@),
        r@.len() == v@.len(),
{
    let mut r: Vec<String> = Vec::new();
    let mut i: usize = 0;
    while i < v.len()
        invariant
            i <= v@.len(),
            r@.len() == i,
            forall|j: int| 0 <= j < i ==> (#[trigger] r@[j])@ == v@[j].called(),
        decreases v@.len() - i,
    {
        r.push(permission_name(v[i]));
        i = i + 1;
    }
    assert(texts(r@) =~= permission_words(v@));
    r
}

/// What is printed once a plugin has been installed: what it is called, and what it may do.
pub fn say_installed(name: &str, version: &str, permissions: &Vec<PluginPermission>) -> (r: Vec<
    String,
>)
    ensures
        texts(r@) == seq![
            "installed "@ + name@ + " "@ + version@,
            if permissions@.len() == 0 {
                "  it declared no permissions: no tools, no providers, no blocking hooks."@
            } else {
                "  it may: "@ + joined_with(permission_words(permissions@), ", "@)
            },
            "\nIt loads when a workspace next starts. `neosh stop` ends the running one."@,
        ],
{
    let mut r: Vec<String> = Vec::new();
    let mut first = "installed ".to_owned();
    first.push_str(name);
    first.push_str(" ");
    first.push_str(version);
    r.push(first);
    if permissions.len() == 0 {
        r.push(
            "  it declared no permissions: no tools, no providers, no blocking hooks.".to_owned(),
        );
    } else {
        let names = permission_names(permissions);
        r.push(concat("  it may: ", join_with(&names, ", ").as_str()));
    }
    r.push("\nIt loads when a workspace next starts. `neosh stop` ends the running one.".to_owned());
    assert(texts(r@) =~= seq![r@[0]@, r@[1]@, r@[2]@]);
    r
}

/// A line about a plugin in a list of them.
pub fn plugin_row(
    name: &str,
    version: &str,
    origin: &str,
    permissions: &Vec<PluginPermission>,
) -> (r: String)
    ensures
        r@ == left_aligned(name@, 20) + " "@ + left_aligned(version@, 10) + " "@ + origin@ + (
        if permissions@.len() == 0 {
            ""@
        } else {
            "  ["@ + joined_with(permission_words(permissions@), " "@) + "]"@
        }),
{
    let mut r = align_left(name, 20);
    r.push_str(" ");
    r.push_str(align_left(version, 10).as_str());
    r.push_str(" ");
    r.push_str(origin);
    if permissions.len() == 0 {
        r.push_str("");
    } else {
        let names = permission_names(permissions);
        r.push_str(quoted_line("  [", join_with(&names, " ").as_str(), "]").as_str());
    }
    r
}

/// What becomes of being asked to remove a plugin.
#[derive(Debug, Clone, Copy, PartialEq, Eq, Structural)]
pub enum Removal {
    Go,
    /// Ask whoever is there.
    Ask,
    /// Nobody is there to ask.
    Refuse,
}

/// Whether a plugin is removed. It cannot be undone, so it asks, and refuses rather than guesses
/// where nobody is there to answer.
pub fn removal(yes: bool, somebody: bool) -> (r: Removal)
    ensures
        r == (if yes {
            Removal::Go
        } else if somebody {
            Removal::Ask
        } else {
            Removal::Refuse
        }),
        (r is Go) == yes,
        (r is Ask) == (!yes && somebody),
{
    if yes {
        Removal::Go
    } else if somebody {
        Removal::Ask
    } else {
        Removal::Refuse
    }
}

/// Whether an answer means it.
pub fn means_yes(answer: &str) -> (r: bool)
    ensures
        r == (trim_of(answer@) == "y"@ || trim_of(answer@) == "Y"@ || trim_of(answer@) == "yes"@),
{
    let cs = chars_of(answer);
    let cut = string_of(trim(cs.as_slice()));
    same_text(cut.as_str(), "y") || same_text(cut.as_str(), "Y") || same_text(cut.as_str(), "yes")
}

// ---- a recorded conversation ------------------------------------------------

/// A text cut at every `by`.
pub open spec fn cut_at(s: Seq<char>, by: Seq<char>) -> Seq<Seq<char>>
    decreases s.len(),
{
    match found_from(s, 0, by) {
        Some(i) => if by.len() > 0 && 0 <= i && i + by.len() <= s.len() {
            seq![s.take(i)] + cut_at(s.skip(i + by.len()), by)
        } else {
            seq![s]
        },
        None => seq![s],
    }
}

/// Those of some texts that hold anything.
pub open spec fn with_anything(v: Seq<Seq<char>>) -> Seq<Seq<char>> {
    v.filter(|s: Seq<char>| !is_blank(s))
}

fn keep_if_any(r: &mut Vec<String>, piece: &[char], Ghost(before): Ghost<Seq<Seq<char>>>)
    requires
        texts(old(r)@) == with_anything(before),
    ensures
        texts(final(r)@) == with_anything(before.push(piece@)),
{
    reveal(Seq::filter);
    proof {
        lemma_trim_blank(piece@);
        assert(before.push(piece@).drop_last() =~= before);
    }
    if trim(piece).len() > 0 {
        let ghost was = texts(r@);
        r.push(string_of(piece));
        assert(texts(r@) =~= was.push(piece@));
    }
}

/// The turns of a recorded stream: a blank line separates them, so that one recording can drive a
/// whole loop of them.
pub fn recorded_turns(text: &str) -> (r: Vec<String>)
    ensures
        texts(r@) == with_anything(cut_at(text@, "\n\n"@)),
{
    reveal(Seq::filter);
    let cs = chars_of(text);
    let s = cs.as_slice();
    let n = s.len();
    let by_chars = chars_of("\n\n");
    let by = by_chars.as_slice();
    let mut r: Vec<String> = Vec::new();
    let mut at: usize = 0;
    let ghost mut before: Seq<Seq<char>> = seq![];
    proof {
        reveal_strlit("\n\n");
        assert(text@.skip(0) =~= text@);
        assert(texts(r@) =~= with_anything(before));
        assert(before + cut_at(text@.skip(0), "\n\n"@) =~= cut_at(text@, "\n\n"@));
    }
    loop
        invariant
            s@ == text@,
            n == s@.len(),
            at <= n,
            by@ == "\n\n"@,
            by@.len() == 2,
            texts(r@) == with_anything(before),
            before + cut_at(text@.skip(at as int), "\n\n"@) == cut_at(text@, "\n\n"@),
        decreases n - at,
    {
        let rest = slice_subrange(s, at, n);
        assert(rest@ =~= text@.skip(at as int));
        proof {
            lemma_found_from(rest@, 0, by@);
        }
        match find_from(rest, 0, by) {
            Some(i) => {
                let piece = slice_subrange(rest, 0, i);
                assert(piece@ =~= rest@.take(i as int));
                keep_if_any(&mut r, piece, Ghost(before));
                proof {
                    let tail = rest@.skip(i + 2);
                    assert(tail =~= text@.skip(at + i + 2));
                    assert(before + (seq![piece@] + cut_at(tail, "\n\n"@)) =~= before.push(piece@)
                        + cut_at(tail, "\n\n"@));
                    before = before.push(piece@);
                }
                at = at + i + 2;
            },
            None => {
                keep_if_any(&mut r, rest, Ghost(before));
                proof {
                    assert(before + seq![rest@] =~= before.push(rest@));
                }
                return r;
            },
        }
    }
}

// ---- models -----------------------------------------------------------------

/// Why an instance lists no models.
#[derive(Debug)]
pub enum Lack {
    /// It needs no key, and nothing answered at this address.
    Unreachable(Option<String>),
    NeedsKey,
}

/// What is printed of an instance: what it is called, and a note on its key where it needs one.
pub fn instance_row(id: &str, name: &str, key: Option<&str>) -> (r: String)
    ensures
        r@ == id@ + " \u{2014} "@ + name@ + (match key {
            Some(k) => "  ("@ + k@ + ")"@,
            None => ""@,
        }),
{
    let mut r = id.to_owned();
    r.push_str(" \u{2014} ");
    r.push_str(name);
    match key {
        Some(k) => {
            r.push_str(quoted_line("  (", k, ")").as_str());
        },
        None => {
            r.push_str("");
        },
    }
    r
}

/// What is printed where an instance lists no models: why, and not just that. The causes need
/// opposite fixes.
pub fn say_lack(l: &Lack) -> (r: String)
    ensures
        r@ == (match *l {
            Lack::Unreachable(at) => "    (nothing reachable at "@ + (match at {
                Some(a) => a@,
                None => "the configured address"@,
            }) + ")"@,
            Lack::NeedsKey => "    (no models listed \u{2014} discovery needs a key)"@,
        }),
{
    match l {
        Lack::Unreachable(at) => {
            let place = match at {
                Some(a) => a.as_str(),
                None => "the configured address",
            };
            quoted_line("    (nothing reachable at ", place, ")")
        },
        Lack::NeedsKey => "    (no models listed \u{2014} discovery needs a key)".to_owned(),
    }
}

} // verus!
