//! The workspace's own commands, the keys they start on, and the way out.
//!
//! They are commands like anyone else's: they can be listed, bound to other keys and run by a
//! plugin. The bindings are only where they start.

use crate::host::composer::Hint;
use crate::host::keys::Mode;
use crate::host::rounds::{turn_of, Turn, Turns};
use crate::images::Attachment;
use crate::host::rounds::Prompt;
use crate::notify::{MessageLevel, SessionId};
use crate::text::{chars_of, decimal, decimal_of, is_blank, lemma_trim_blank, same_text, trim};
use crate::words::{concat, lines, lines_of};
use vstd::prelude::*;

verus! {

/// The plugin that owns what the workspace itself brings.
pub const BUILTIN: &'static str = "neosh";

/// Every command, and what it is for.
pub const COMMANDS: [(&'static str, &'static str); 18] = [
    ("config.reload", "Re-read config.toml and init.ts, and reload every plugin"),
    ("quit", "Close this terminal. Whatever is running keeps running"),
    ("stop", "Stop the workspace, and everything running in it"),
    ("interrupt", "Stop what is running, or leave"),
    ("chat.scroll_up", "Scroll the transcript up a screen"),
    ("chat.scroll_down", "Scroll the transcript down a screen"),
    ("chat.scroll_end", "Jump to the end of the transcript"),
    ("chat.read", "Read the transcript: hjkl move, [ ] turns, { } blocks, / finds, yc takes the code"),
    ("chat.toggle_card", "Open or fold the tool card under the cursor, while reading"),
    (
        "chat.queue.edit",
        "Take the last thing you queued back into the composer, to change it or drop it",
    ),
    ("chat.image.paste", "Attach the image on the clipboard"),
    ("chat.image.drop", "Take the last attached image back off"),
    ("chat.image.clear", "Take every attached image off"),
    ("edit.copy", "Copy what is selected"),
    ("edit.cut", "Cut what is selected"),
    ("edit.select_all", "Select everything here"),
    ("edit.newline", "Break the line instead of sending"),
    (
        "provider.key",
        "Enter an API key \u{2014} for the named instance, or the one this model belongs to",
    ),
];

/// The keys that work everywhere: a key, a command, and what it does. A configuration that fails to
/// load can put you somewhere unexpected, which is exactly when you need one of these.
pub const EVERYWHERE: [(&'static str, &'static str, &'static str); 4] = [
    ("<C-r>", "config.reload", "Reload configuration"),
    ("<C-q>", "quit", "Close neosh"),
    ("<C-c>", "interrupt", "Cancel, clear, or quit"),
    ("<C-s>", "chat.read", "Read, select and copy the transcript"),
];

/// The keys that act on the composer, or scroll the transcript without the cursor. They work in the
/// chat alone: a mode's keys are the mode's keys.
pub const IN_CHAT: [(&'static str, &'static str, &'static str); 7] = [
    ("<PageUp>", "chat.scroll_up", "Scroll up"),
    ("<PageDown>", "chat.scroll_down", "Scroll down"),
    ("<C-End>", "chat.scroll_end", "Back to the newest message"),
    ("<C-x>", "edit.cut", "Cut the selection"),
    ("<C-a>", "edit.select_all", "Select everything"),
    ("<C-y>", "chat.queue.edit", "Take the last queued message back"),
    ("<C-v>", "chat.image.paste", "Attach the image on the clipboard"),
];

/// A key bound to a command, in a mode.
#[derive(Debug)]
pub struct Binding {
    pub mode: Mode,
    pub lhs: String,
    pub command: String,
    pub desc: String,
}

/// The modes a key that works everywhere is bound in, in order.
pub open spec fn mode_at(i: int) -> Mode {
    if i == 0 {
        Mode::Normal
    } else if i == 1 {
        Mode::Insert
    } else if i == 2 {
        Mode::Visual
    } else {
        Mode::Chat
    }
}

/// Whether a binding is a row of a table, in a mode.
pub open spec fn binds(b: Binding, mode: Mode, row: (&'static str, &'static str, &'static str)) -> bool {
    b.mode == mode && b.lhs@ == row.0@ && b.command@ == row.1@ && b.desc@ == row.2@
}

fn bind(mode: Mode, row: (&'static str, &'static str, &'static str)) -> (r: Binding)
    ensures
        binds(r, mode, row),
{
    Binding { mode, lhs: row.0.to_owned(), command: row.1.to_owned(), desc: row.2.to_owned() }
}

/// The commands and the keys they start on, in the order they are registered.
pub fn register_builtin_commands() -> (r: (Vec<(String, String)>, Vec<Binding>))
    ensures
        r.0@.len() == 18,
        forall|i: int|
            0 <= i < 18 ==> (#[trigger] r.0@[i]).0@ == COMMANDS@[i].0@ && r.0@[i].1@
                == COMMANDS@[i].1@,
        r.1@.len() == 23,
        forall|i: int|
            0 <= i < 16 ==> binds(#[trigger] r.1@[i], mode_at(i % 4), EVERYWHERE@[i / 4]),
        forall|i: int| 16 <= i < 23 ==> binds(#[trigger] r.1@[i], Mode::Chat, IN_CHAT@[i - 16]),
{
    let mut commands: Vec<(String, String)> = Vec::new();
    let mut i: usize = 0;
    while i < 18
        invariant
            i <= 18,
            commands@.len() == i,
            forall|j: int|
                0 <= j < i ==> (#[trigger] commands@[j]).0@ == COMMANDS@[j].0@ && commands@[j].1@
                    == COMMANDS@[j].1@,
        decreases 18 - i,
    {
        let row = COMMANDS[i];
        commands.push((row.0.to_owned(), row.1.to_owned()));
        i = i + 1;
    }
    let mut keys: Vec<Binding> = Vec::new();
    let mut k: usize = 0;
    while k < 4
        invariant
            k <= 4,
            keys@.len() == 4 * k,
            forall|j: int|
                0 <= j < 4 * k ==> binds(#[trigger] keys@[j], mode_at(j % 4), EVERYWHERE@[j / 4]),
        decreases 4 - k,
    {
        let row = EVERYWHERE[k];
        keys.push(bind(Mode::Normal, row));
        keys.push(bind(Mode::Insert, row));
        keys.push(bind(Mode::Visual, row));
        keys.push(bind(Mode::Chat, row));
        k = k + 1;
    }
    let mut c: usize = 0;
    while c < 7
        invariant
            c <= 7,
            keys@.len() == 16 + c,
            forall|j: int|
                0 <= j < 16 ==> binds(#[trigger] keys@[j], mode_at(j % 4), EVERYWHERE@[j / 4]),
            forall|j: int|
                16 <= j < 16 + c ==> binds(#[trigger] keys@[j], Mode::Chat, IN_CHAT@[j - 16]),
        decreases 7 - c,
    {
        keys.push(bind(Mode::Chat, IN_CHAT[c]));
        c = c + 1;
    }
    (commands, keys)
}

/// Where something is selected.
#[derive(Debug, Clone, Copy, PartialEq, Eq, Structural)]
pub enum Pane {
    Transcript,
    Composer,
}

/// What running a command comes to.
#[derive(Debug, Clone, Copy)]
pub enum Action {
    Reload,
    Leave,
    Stop,
    Interrupt,
    /// Back a screen, on a screen, or to the end.
    Scroll(i32),
    LeaveReading,
    EnterReading,
    /// What comes of it is [`edit_queue`]'s to say.
    Unqueue,
    /// What went wrong with it, if anything did, is said as a warning.
    AttachClipboard,
    DropAttachment,
    ClearAttachments,
    ToggleCard,
    Say(MessageLevel, &'static str),
    /// What comes of it is [`copy_or_say`]'s to say.
    Copy,
    /// As with copying.
    Cut,
    SelectAll(Pane),
    Newline,
    /// Whose key it is is [`ask_key`]'s to say.
    AskKey,
    Unknown,
}

/// What running a command comes to.
pub open spec fn action_of(name: Seq<char>, reading: bool) -> Action {
    if name == "config.reload"@ {
        Action::Reload
    } else if name == "quit"@ {
        Action::Leave
    } else if name == "stop"@ {
        Action::Stop
    } else if name == "interrupt"@ {
        Action::Interrupt
    } else if name == "chat.scroll_up"@ {
        Action::Scroll(-1i32)
    } else if name == "chat.scroll_down"@ {
        Action::Scroll(1)
    } else if name == "chat.scroll_end"@ {
        Action::Scroll(0)
    } else if name == "chat.read"@ {
        if reading {
            Action::LeaveReading
        } else {
            Action::EnterReading
        }
    } else if name == "chat.queue.edit"@ {
        Action::Unqueue
    } else if name == "chat.image.paste"@ {
        Action::AttachClipboard
    } else if name == "chat.image.drop"@ {
        Action::DropAttachment
    } else if name == "chat.image.clear"@ {
        Action::ClearAttachments
    } else if name == "chat.toggle_card"@ {
        if reading {
            Action::ToggleCard
        } else {
            Action::Say(MessageLevel::Info, "^S first: cards open while reading")
        }
    } else if name == "edit.copy"@ {
        Action::Copy
    } else if name == "edit.cut"@ {
        Action::Cut
    } else if name == "edit.select_all"@ {
        if reading {
            Action::SelectAll(Pane::Transcript)
        } else {
            Action::SelectAll(Pane::Composer)
        }
    } else if name == "edit.newline"@ {
        Action::Newline
    } else if name == "provider.key"@ {
        Action::AskKey
    } else {
        Action::Unknown
    }
}

/// Run one of the workspace's own commands.
pub fn run_builtin(name: &str, reading: bool) -> (r: Action)
    ensures
        r == action_of(name@, reading),
{
    if same_text(name, "config.reload") {
        Action::Reload
    } else if same_text(name, "quit") {
        Action::Leave
    } else if same_text(name, "stop") {
        Action::Stop
    } else if same_text(name, "interrupt") {
        Action::Interrupt
    } else if same_text(name, "chat.scroll_up") {
        Action::Scroll(-1)
    } else if same_text(name, "chat.scroll_down") {
        Action::Scroll(1)
    } else if same_text(name, "chat.scroll_end") {
        Action::Scroll(0)
    } else if same_text(name, "chat.read") {
        // A toggle, because it is the door and a door opens both ways.
        if reading {
            Action::LeaveReading
        } else {
            Action::EnterReading
        }
    } else if same_text(name, "chat.queue.edit") {
        Action::Unqueue
    } else if same_text(name, "chat.image.paste") {
        Action::AttachClipboard
    } else if same_text(name, "chat.image.drop") {
        Action::DropAttachment
    } else if same_text(name, "chat.image.clear") {
        Action::ClearAttachments
    } else if same_text(name, "chat.toggle_card") {
        if reading {
            Action::ToggleCard
        } else {
            Action::Say(MessageLevel::Info, "^S first: cards open while reading")
        }
    } else if same_text(name, "edit.copy") {
        Action::Copy
    } else if same_text(name, "edit.cut") {
        Action::Cut
    } else if same_text(name, "edit.select_all") {
        if reading {
            Action::SelectAll(Pane::Transcript)
        } else {
            Action::SelectAll(Pane::Composer)
        }
    } else if same_text(name, "edit.newline") {
        Action::Newline
    } else if same_text(name, "provider.key") {
        Action::AskKey
    } else {
        Action::Unknown
    }
}

/// Every command that is registered is one that does something, whatever mode it is run in.
pub proof fn every_command_does_something(i: int, reading: bool)
    requires
        0 <= i < 18,
    ensures
        !(action_of(COMMANDS@[i].0@, reading) is Unknown),
{
}

/// Every key is bound to a command that is registered.
pub proof fn every_key_runs_a_command(i: int)
    requires
        0 <= i < 4,
    ensures
        exists|j: int| 0 <= j < 18 && (#[trigger] COMMANDS@[j]).0@ == EVERYWHERE@[i].1@,
{
    let j: int = if i == 0 {
        0
    } else if i == 1 {
        1
    } else if i == 2 {
        3
    } else {
        7
    };
    assert(COMMANDS@[j].0@ == EVERYWHERE@[i].1@);
}

/// Every key of the chat is bound to a command that is registered.
pub proof fn every_chat_key_runs_a_command(i: int)
    requires
        0 <= i < 7,
    ensures
        exists|j: int| 0 <= j < 18 && (#[trigger] COMMANDS@[j]).0@ == IN_CHAT@[i].1@,
{
    let j: int = if i < 3 {
        4 + i
    } else if i == 3 {
        14
    } else if i == 4 {
        15
    } else if i == 5 {
        9
    } else {
        10
    };
    assert(COMMANDS@[j].0@ == IN_CHAT@[i].1@);
}

/// Whose key is asked for: the instance that was named, or else the one serving the model you are
/// on.
pub fn key_target(args: &Vec<String>, serving: Option<&str>) -> (r: Option<String>)
    ensures
        match r {
            Some(t) => t@ == (if args@.len() > 0 {
                args@[0]@
            } else {
                serving->0@
            }) && (args@.len() > 0 || serving is Some),
            None => args@.len() == 0 && serving is None,
        },
{
    if args.len() > 0 {
        return Some(args[0].clone());
    }
    match serving {
        Some(s) => Some(s.to_owned()),
        None => None,
    }
}

/// What the composer holds once something queued has been taken back into it: what was queued, and
/// under it what was being written.
pub fn taken_back(queued: &str, draft: &str) -> (r: String)
    ensures
        r@ == (if is_blank(draft@) {
            queued@
        } else {
            queued@ + "\n"@ + draft@
        }),
{
    proof {
        lemma_trim_blank(draft@);
    }
    if trim(chars_of(draft).as_slice()).len() == 0 {
        return queued.to_owned();
    }
    let mut r = queued.to_owned();
    r.push_str("\n");
    r.push_str(draft);
    r
}

/// What taking back the last thing that was queued comes to.
#[derive(Debug)]
pub enum Unqueued {
    Say(MessageLevel, &'static str),
    /// What the composer holds then, and the pictures that go back on the row.
    Back(String, Vec<String>),
}

/// Take the last thing that was queued back into the composer. What was attached to it comes back
/// too: a sentence you can edit and a picture you cannot put back would be half an undo.
pub fn edit_queue(last: Option<Prompt>, draft: &str) -> (r: Unqueued)
    ensures
        match last {
            None => r == Unqueued::Say(MessageLevel::Info, "nothing queued"),
            Some(p) => {
                &&& r is Back
                &&& r->Back_0@ == (if is_blank(draft@) {
                    p.text@
                } else {
                    p.text@ + "\n"@ + draft@
                })
                &&& r->Back_1 == p.images
            },
        },
{
    match last {
        None => Unqueued::Say(MessageLevel::Info, "nothing queued"),
        Some(p) => Unqueued::Back(taken_back(p.text.as_str(), draft), p.images),
    }
}

/// Whose key is asked for, or what is said where it could be nobody's.
pub fn ask_key(args: &Vec<String>, serving: Option<&str>) -> (r: Result<
    String,
    (MessageLevel, &'static str),
>)
    ensures
        match r {
            Ok(t) => (args@.len() > 0 && t@ == args@[0]@) || (args@.len() == 0 && serving is Some
                && t@ == serving->0@),
            Err(said) => args@.len() == 0 && serving is None && said == (
                MessageLevel::Warn,
                "no model is selected",
            ),
        },
{
    match key_target(args, serving) {
        Some(t) => Ok(t),
        None => Err((MessageLevel::Warn, "no model is selected")),
    }
}

/// What is said of some pictures that were taken off.
pub open spec fn took_off_said(n: nat) -> Seq<char> {
    if n == 0 {
        "nothing attached"@
    } else if n == 1 {
        "took off 1 image"@
    } else {
        "took off "@ + decimal(n) + " images"@
    }
}

/// What is said of some pictures that were taken off.
pub fn took_off(n: usize) -> (r: String)
    ensures
        r@ == took_off_said(n as nat),
{
    if n == 0 {
        return "nothing attached".to_owned();
    }
    if n == 1 {
        return "took off 1 image".to_owned();
    }
    let mut r = "took off ".to_owned();
    r.push_str(decimal_of(n as u64).as_str());
    r.push_str(" images");
    r
}

/// Take the last attached picture back off, and what is said of it.
pub fn drop_attachment(attached: &mut Vec<Attachment>) -> (r: String)
    ensures
        if old(attached)@.len() == 0 {
            final(attached)@ == old(attached)@ && r@ == "nothing attached"@
        } else {
            final(attached)@ == old(attached)@.drop_last() && r@ == "took off "@
                + old(attached)@.last().labelled()
        },
{
    match attached.pop() {
        None => "nothing attached".to_owned(),
        Some(a) => concat("took off ", a.label().as_str()),
    }
}

/// The shortcuts the workspace itself owns. Everything else on that row comes from a plugin.
pub fn seed_hints(ascii: bool) -> (r: Vec<Hint>)
    ensures
        r@.len() == 2,
        r@[0].key@ == "neosh:send"@,
        r@[0].keys@ == (if ascii {
            "Enter"@
        } else {
            "\u{23ce}"@
        }),
        r@[0].label@ == "send"@,
        r@[0].priority == 0,
        r@[1].key@ == "neosh:newline"@,
        r@[1].keys@ == (if ascii {
            "S-Enter"@
        } else {
            "\u{21e7}\u{23ce}"@
        }),
        r@[1].label@ == "newline"@,
        r@[1].priority == 1,
{
    let send = if ascii {
        "Enter"
    } else {
        "\u{23ce}"
    };
    let newline = if ascii {
        "S-Enter"
    } else {
        "\u{21e7}\u{23ce}"
    };
    let mut r: Vec<Hint> = Vec::new();
    r.push(
        Hint {
            key: "neosh:send".to_owned(),
            keys: send.to_owned(),
            label: "send".to_owned(),
            priority: 0,
        },
    );
    r.push(
        Hint {
            key: "neosh:newline".to_owned(),
            keys: newline.to_owned(),
            label: "newline".to_owned(),
            priority: 1,
        },
    );
    r
}

// ---- copying ----------------------------------------------------------------

/// What becomes of a selection that is copied.
#[derive(Debug)]
pub struct Taken {
    /// What is deleted with it, rather than only let go of.
    pub delete: bool,
    pub said: String,
}

/// What is said of a selection that was taken.
pub open spec fn taken_said(text: Seq<char>, cut: bool) -> Seq<char> {
    let n = lines_of(text).len();
    (if cut {
        "cut "@
    } else {
        "copied "@
    }) + decimal(n) + " line"@ + (if n == 1 {
        ""@
    } else {
        "s"@
    })
}

/// Copy or cut what is selected, if anything is. Cutting the transcript only copies it: it is not
/// yours to change.
pub fn copy_selection(text: &str, cut: bool, reading: bool) -> (r: Option<Taken>)
    ensures
        match r {
            None => text@.len() == 0,
            Some(t) => text@.len() > 0 && t.delete == (cut && !reading) && t.said@ == taken_said(
                text@,
                cut,
            ),
        },
{
    let cs = chars_of(text);
    if cs.len() == 0 {
        return None;
    }
    let n = lines(cs.as_slice()).len();
    let mut said = (if cut {
        "cut "
    } else {
        "copied "
    }).to_owned();
    said.push_str(decimal_of(n as u64).as_str());
    said.push_str(" line");
    said.push_str(
        if n == 1 {
            ""
        } else {
            "s"
        },
    );
    Some(Taken { delete: cut && !reading, said })
}

/// Copy or cut what is selected, or what is said where nothing is.
pub fn copy_or_say(text: &str, cut: bool, reading: bool) -> (r: Result<
    Taken,
    (MessageLevel, &'static str),
>)
    ensures
        match r {
            Ok(t) => text@.len() > 0 && t.delete == (cut && !reading) && t.said@ == taken_said(
                text@,
                cut,
            ),
            Err(said) => text@.len() == 0 && said == (MessageLevel::Warn, "nothing selected"),
        },
{
    match copy_selection(text, cut, reading) {
        Some(t) => Ok(t),
        None => Err((MessageLevel::Warn, "nothing selected")),
    }
}

// ---- the way out ------------------------------------------------------------

/// What leaving does. It follows from whether this is the program you are looking at, or a
/// workspace that something else is looking at, and nothing else gets a vote.
#[derive(Debug, Clone, Copy, PartialEq, Eq, Structural)]
pub enum OnQuit {
    /// This is the program. Leaving ends it.
    Stop,
    /// This is a workspace with a viewer. Leaving sends the viewer away.
    Detach,
}

/// How the way out is taken.
#[derive(Debug, Clone, Copy, PartialEq, Eq, Structural)]
pub enum Exit {
    /// Everything ends.
    Stop,
    /// This terminal goes, and the workspace stays.
    Detach,
}

/// How long a second press may take, in nanoseconds.
pub const ARM_WINDOW: u64 = 3_000_000_000;

/// What a press of the key that interrupts came to.
#[derive(Debug, Clone, Copy)]
pub enum Pressed {
    /// Something was selected, and has been copied.
    Copied,
    LeftReading,
    /// There was a turn. Whether this press is what stopped it.
    Interrupted(bool),
    /// What was being written is gone.
    Cleared,
    Left(Exit),
    /// Nothing was left to give up but the program, and that takes a second press.
    Armed(&'static str),
}

/// What leaving does here, from the key, from the command, and from the last rung of `^C`. One door,
/// because there is only one door.
pub fn leave(on_quit: OnQuit) -> (r: Exit)
    ensures
        r == (match on_quit {
            OnQuit::Stop => Exit::Stop,
            OnQuit::Detach => Exit::Detach,
        }),
        (r == Exit::Stop) == (on_quit == OnQuit::Stop),
{
    match on_quit {
        OnQuit::Stop => Exit::Stop,
        OnQuit::Detach => Exit::Detach,
    }
}

/// Whether a press at `now` is the second of two.
pub open spec fn armed_at(armed: Option<u64>, now: u64) -> bool {
    armed is Some && (now < armed->0 || now - armed->0 < ARM_WINDOW)
}

/// What a press of the key comes to: the nearest thing there is to give up.
pub open spec fn pressed(
    selected: bool,
    reading: bool,
    turn: Option<Turn>,
    draft: bool,
    armed: Option<u64>,
    on_quit: OnQuit,
    now: u64,
) -> Pressed {
    if selected {
        Pressed::Copied
    } else if reading {
        Pressed::LeftReading
    } else if turn is Some {
        Pressed::Interrupted(!turn->0.cancelling)
    } else if draft {
        Pressed::Cleared
    } else if armed_at(armed, now) {
        Pressed::Left(
            match on_quit {
                OnQuit::Stop => Exit::Stop,
                OnQuit::Detach => Exit::Detach,
            },
        )
    } else {
        Pressed::Armed(
            match on_quit {
                OnQuit::Stop => "press ^C again to quit, or ^Q",
                OnQuit::Detach => "press ^C again to close this terminal, or ^Q",
            },
        )
    }
}

/// The turn running in a conversation.
pub open spec fn turn_in(turns: Seq<Turn>, session: Seq<char>) -> Option<Turn> {
    match turn_of(turns, session) {
        Some(i) => Some(turns[i]),
        None => None,
    }
}

/// One press of the key that interrupts: it copies, leaves reading, stops the turn, clears what was
/// being written, or goes, whichever comes first.
pub fn interrupt(
    armed: &mut Option<u64>,
    turns: &mut Turns,
    here: &SessionId,
    selected: bool,
    reading: bool,
    draft: bool,
    on_quit: OnQuit,
    now: u64,
) -> (r: Pressed)
    requires
        old(turns).wf(),
    ensures
        r == pressed(
            selected,
            reading,
            turn_in(old(turns).running@, here.0@),
            draft,
            *old(armed),
            on_quit,
            now,
        ),
        final(turns).wf(),
        match turn_of(old(turns).running@, here.0@) {
            Some(i) if !selected && !reading => final(turns).running@
                == old(turns).running@.update(
                i,
                Turn { cancelling: true, ..old(turns).running@[i] },
            ),
            _ => final(turns).running == old(turns).running,
        },
        *final(armed) == (match r {
            Pressed::Armed(_) => Some(now),
            Pressed::Left(_) => *old(armed),
            _ => None,
        }),
{
    // With something selected, `^C` copies: the two cases cannot both be true.
    if selected {
        *armed = None;
        return Pressed::Copied;
    }
    if reading {
        *armed = None;
        return Pressed::LeftReading;
    }
    if let Some(stopped) = turns.cancel(here) {
        *armed = None;
        return Pressed::Interrupted(stopped);
    }
    if draft {
        *armed = None;
        return Pressed::Cleared;
    }
    let again = match *armed {
        Some(at) => now < at || now - at < ARM_WINDOW,
        None => false,
    };
    if again {
        return Pressed::Left(leave(on_quit));
    }
    *armed = Some(now);
    Pressed::Armed(
        match on_quit {
            OnQuit::Stop => "press ^C again to quit, or ^Q",
            OnQuit::Detach => "press ^C again to close this terminal, or ^Q",
        },
    )
}

/// No press of the key stops a workspace that somebody else may be looking at: at most it closes
/// this terminal.
pub proof fn a_terminal_never_stops_the_workspace(
    selected: bool,
    reading: bool,
    turn: Option<Turn>,
    draft: bool,
    armed: Option<u64>,
    now: u64,
)
    ensures
        pressed(selected, reading, turn, draft, armed, OnQuit::Detach, now) != Pressed::Left(
            Exit::Stop,
        ),
{
}

/// One press never leaves, whatever there is to give up: it takes a press before it.
pub proof fn one_press_never_leaves(
    selected: bool,
    reading: bool,
    turn: Option<Turn>,
    draft: bool,
    on_quit: OnQuit,
    now: u64,
)
    ensures
        !(pressed(selected, reading, turn, draft, None, on_quit, now) is Left),
{
}

} // verus!
