//! What commands come to, and what the keys that are bound to them do.

use crate::host::commands::{
    action_of, armed_at, mode_at, pressed, taken_said, took_off_said, Action, Exit, OnQuit, Pane,
    Pressed, COMMANDS, EVERYWHERE, IN_CHAT,
};
use crate::host::keys::Mode;
use crate::host::rounds::Turn;
use crate::text::decimal;
use vstd::prelude::*;

verus! {

proof fn lemma_commands_differ()
    ensures
        forall|i: int, j: int|
            0 <= i < j < 18 ==> (#[trigger] COMMANDS@[i]).0@ != (#[trigger] COMMANDS@[j]).0@,
{
    reveal_strlit("config.reload");
    reveal_strlit("quit");
    reveal_strlit("stop");
    reveal_strlit("interrupt");
    reveal_strlit("chat.scroll_up");
    reveal_strlit("chat.scroll_down");
    reveal_strlit("chat.scroll_end");
    reveal_strlit("chat.read");
    reveal_strlit("chat.toggle_card");
    reveal_strlit("chat.queue.edit");
    reveal_strlit("chat.image.paste");
    reveal_strlit("chat.image.drop");
    reveal_strlit("chat.image.clear");
    reveal_strlit("edit.copy");
    reveal_strlit("edit.cut");
    reveal_strlit("edit.select_all");
    reveal_strlit("edit.newline");
    reveal_strlit("provider.key");
    assert("quit"@[0] != "stop"@[0]);
    assert("chat.scroll_up"@.len() == 14);
    assert("chat.scroll_down"@.len() == 16 && "chat.image.paste"@.len() == 16
        && "chat.toggle_card"@.len() == 16 && "chat.image.clear"@.len() == 16);
    assert("chat.scroll_down"@[5] == 's' && "chat.image.paste"@[5] == 'i'
        && "chat.toggle_card"@[5] == 't');
    assert("chat.image.paste"@[11] == 'p' && "chat.image.clear"@[11] == 'c');
    assert("chat.scroll_end"@.len() == 15 && "chat.queue.edit"@.len() == 15
        && "chat.image.drop"@.len() == 15 && "edit.select_all"@.len() == 15);
    assert("chat.scroll_end"@[5] == 's' && "chat.queue.edit"@[5] == 'q'
        && "chat.image.drop"@[5] == 'i' && "edit.select_all"@[5] == 's'
        && "edit.select_all"@[0] == 'e' && "chat.scroll_end"@[0] == 'c');
    assert("interrupt"@.len() == 9 && "chat.read"@.len() == 9 && "edit.copy"@.len() == 9);
    assert("interrupt"@[0] == 'i' && "chat.read"@[0] == 'c' && "edit.copy"@[0] == 'e');
    assert("edit.newline"@.len() == 12 && "provider.key"@.len() == 12);
    assert("edit.newline"@[0] == 'e' && "provider.key"@[0] == 'p');
    assert("edit.cut"@.len() == 8 && "config.reload"@.len() == 13);
}

/// Each thing that a command can come to comes of one command, and of no other: only `stop` stops
/// the workspace, only `quit` leaves it, and a name that is no command's comes to nothing.
pub proof fn each_command_comes_to_what_it_names(name: Seq<char>, reading: bool)
    ensures
        (action_of(name, reading) is Stop) == (name == "stop"@),
        (action_of(name, reading) is Leave) == (name == "quit"@),
        (action_of(name, reading) is Reload) == (name == "config.reload"@),
        (action_of(name, reading) is Interrupt) == (name == "interrupt"@),
        (action_of(name, reading) is EnterReading) == (name == "chat.read"@ && !reading),
        (action_of(name, reading) is LeaveReading) == (name == "chat.read"@ && reading),
        (action_of(name, reading) is Unqueue) == (name == "chat.queue.edit"@),
        (action_of(name, reading) is AttachClipboard) == (name == "chat.image.paste"@),
        (action_of(name, reading) is DropAttachment) == (name == "chat.image.drop"@),
        (action_of(name, reading) is ClearAttachments) == (name == "chat.image.clear"@),
        (action_of(name, reading) is ToggleCard) == (name == "chat.toggle_card"@ && reading),
        (action_of(name, reading) is Say) == (name == "chat.toggle_card"@ && !reading),
        (action_of(name, reading) is Copy) == (name == "edit.copy"@),
        (action_of(name, reading) is Cut) == (name == "edit.cut"@),
        (action_of(name, reading) is Newline) == (name == "edit.newline"@),
        (action_of(name, reading) is AskKey) == (name == "provider.key"@),
        (action_of(name, reading) is SelectAll) == (name == "edit.select_all"@),
        (action_of(name, reading) is Scroll) == (name == "chat.scroll_up"@ || name
            == "chat.scroll_down"@ || name == "chat.scroll_end"@),
        match action_of(name, reading) {
            Action::Scroll(n) => {
                &&& (n < 0) == (name == "chat.scroll_up"@)
                &&& (n > 0) == (name == "chat.scroll_down"@)
                &&& -1 <= n <= 1
            },
            Action::SelectAll(pane) => (pane == Pane::Transcript) == reading,
            _ => true,
        },
        (action_of(name, reading) is Unknown) == (forall|i: int|
            0 <= i < 18 ==> (#[trigger] COMMANDS@[i]).0@ != name),
{
    lemma_commands_differ();
    let t = COMMANDS@;
    assert(t[0].0@ == "config.reload"@ && t[1].0@ == "quit"@ && t[2].0@ == "stop"@ && t[3].0@
        == "interrupt"@);
    assert(t[4].0@ == "chat.scroll_up"@ && t[5].0@ == "chat.scroll_down"@ && t[6].0@
        == "chat.scroll_end"@);
    assert(t[7].0@ == "chat.read"@ && t[8].0@ == "chat.toggle_card"@ && t[9].0@
        == "chat.queue.edit"@);
    assert(t[10].0@ == "chat.image.paste"@ && t[11].0@ == "chat.image.drop"@ && t[12].0@
        == "chat.image.clear"@);
    assert(t[13].0@ == "edit.copy"@ && t[14].0@ == "edit.cut"@ && t[15].0@ == "edit.select_all"@);
    assert(t[16].0@ == "edit.newline"@ && t[17].0@ == "provider.key"@);
}

/// No two commands come to the same thing.
pub proof fn no_two_commands_are_alike(a: Seq<char>, b: Seq<char>, reading: bool)
    requires
        a != b,
        !(action_of(a, reading) is Unknown),
    ensures
        action_of(a, reading) != action_of(b, reading),
{
    each_command_comes_to_what_it_names(a, reading);
    each_command_comes_to_what_it_names(b, reading);
}

/// The door to reading opens both ways: what enters it where it is shut leaves it where it is open.
/// No other command but the one that opens a card, and the one that takes everything, asks whether
/// the transcript is being read.
pub proof fn only_some_commands_ask_where_you_are(name: Seq<char>)
    requires
        name != "chat.read"@,
        name != "chat.toggle_card"@,
        name != "edit.select_all"@,
    ensures
        action_of(name, true) == action_of(name, false),
{
}

/// The key that is bound to each command, and where: the four that work everywhere are bound in
/// every mode, and those of the composer in the chat alone.
pub proof fn each_key_runs_what_it_is_for(i: int, m: Mode)
    requires
        0 <= i < 7,
    ensures
        i < 4 ==> (EVERYWHERE@[i].0@ == "<C-q>"@) == (EVERYWHERE@[i].1@ == "quit"@),
        i < 4 ==> (EVERYWHERE@[i].0@ == "<C-r>"@) == (EVERYWHERE@[i].1@ == "config.reload"@),
        i < 4 ==> (EVERYWHERE@[i].0@ == "<C-c>"@) == (EVERYWHERE@[i].1@ == "interrupt"@),
        i < 4 ==> (EVERYWHERE@[i].0@ == "<C-s>"@) == (EVERYWHERE@[i].1@ == "chat.read"@),
        (IN_CHAT@[i].0@ == "<PageUp>"@) == (IN_CHAT@[i].1@ == "chat.scroll_up"@),
        (IN_CHAT@[i].0@ == "<PageDown>"@) == (IN_CHAT@[i].1@ == "chat.scroll_down"@),
        (IN_CHAT@[i].0@ == "<C-End>"@) == (IN_CHAT@[i].1@ == "chat.scroll_end"@),
        (IN_CHAT@[i].0@ == "<C-x>"@) == (IN_CHAT@[i].1@ == "edit.cut"@),
        (IN_CHAT@[i].0@ == "<C-a>"@) == (IN_CHAT@[i].1@ == "edit.select_all"@),
        (IN_CHAT@[i].0@ == "<C-y>"@) == (IN_CHAT@[i].1@ == "chat.queue.edit"@),
        (IN_CHAT@[i].0@ == "<C-v>"@) == (IN_CHAT@[i].1@ == "chat.image.paste"@),
        exists|k: int| 0 <= k < 4 && #[trigger] mode_at(k) == m,
{
    lemma_commands_differ();
    let t = COMMANDS@;
    assert(t[0].0@ == "config.reload"@ && t[1].0@ == "quit"@ && t[3].0@ == "interrupt"@);
    assert(t[4].0@ == "chat.scroll_up"@ && t[5].0@ == "chat.scroll_down"@ && t[6].0@
        == "chat.scroll_end"@);
    assert(t[7].0@ == "chat.read"@ && t[9].0@ == "chat.queue.edit"@);
    assert(t[10].0@ == "chat.image.paste"@ && t[14].0@ == "edit.cut"@ && t[15].0@
        == "edit.select_all"@);
    reveal_strlit("<C-q>");
    reveal_strlit("<C-r>");
    reveal_strlit("<C-c>");
    reveal_strlit("<C-s>");
    reveal_strlit("<C-x>");
    reveal_strlit("<C-a>");
    reveal_strlit("<C-y>");
    reveal_strlit("<C-v>");
    reveal_strlit("<PageUp>");
    reveal_strlit("<PageDown>");
    reveal_strlit("<C-End>");
    assert("<C-q>"@[3] == 'q' && "<C-r>"@[3] == 'r' && "<C-c>"@[3] == 'c' && "<C-s>"@[3] == 's');
    assert("<C-x>"@[3] == 'x' && "<C-a>"@[3] == 'a' && "<C-y>"@[3] == 'y' && "<C-v>"@[3] == 'v');
    assert("<PageUp>"@.len() == 8 && "<PageDown>"@.len() == 10 && "<C-End>"@.len() == 7);
    assert(mode_at(0) == Mode::Normal && mode_at(1) == Mode::Insert && mode_at(2) == Mode::Visual
        && mode_at(3) == Mode::Chat);
}

/// A press of the key that interrupts takes the nearest thing there is to give up: what is selected,
/// then reading, then the turn, then what was being written, and only then the program, which takes
/// a press within three seconds of the one before it.
pub proof fn the_nearest_thing_is_given_up_first(
    selected: bool,
    reading: bool,
    turn: Option<Turn>,
    draft: bool,
    armed: Option<u64>,
    on_quit: OnQuit,
    now: u64,
)
    ensures
        ({
            let r = pressed(selected, reading, turn, draft, armed, on_quit, now);
            let nothing = !selected && !reading && turn is None && !draft;
            &&& (r is Copied) == selected
            &&& (r is LeftReading) == (reading && !selected)
            &&& (r is Interrupted) == (turn is Some && !reading && !selected)
            &&& (r is Cleared) == (draft && turn is None && !reading && !selected)
            &&& (r is Left || r is Armed) == nothing
            &&& match r {
                Pressed::Interrupted(stopped) => stopped != turn->0.cancelling,
                Pressed::Left(exit) => {
                    &&& (exit == Exit::Stop) == (on_quit == OnQuit::Stop)
                    &&& armed is Some
                    &&& armed->0 <= now ==> now - armed->0 < 3_000_000_000
                },
                Pressed::Armed(said) => {
                    &&& armed is None || now - armed->0 >= 3_000_000_000
                    &&& said@ == (if on_quit == OnQuit::Stop {
                        "press ^C again to quit, or ^Q"@
                    } else {
                        "press ^C again to close this terminal, or ^Q"@
                    })
                },
                _ => true,
            }
        }),
{
}

/// Two presses with nothing to give up leave, where the second comes within three seconds of the
/// first, and not where it comes later.
pub proof fn two_presses_leave(on_quit: OnQuit, first: u64, second: u64)
    requires
        first <= second,
    ensures
        pressed(false, false, None, false, None, on_quit, first) is Armed,
        (second - first < 3_000_000_000) == (pressed(
            false,
            false,
            None,
            false,
            Some(first),
            on_quit,
            second,
        ) is Left),
        armed_at(Some(first), second) == (second - first < 3_000_000_000),
{
}

/// What is said of pictures taken off names how many there were, and what is said of a selection
/// names how many lines and whether it was cut.
pub proof fn how_much_was_taken_is_said(n: nat, text: Seq<char>)
    ensures
        n == 0 ==> took_off_said(n) == "nothing attached"@,
        n == 1 ==> took_off_said(n) == "took off 1 image"@,
        n > 1 ==> took_off_said(n) == "took off "@ + decimal(n) + " images"@,
        crate::words::lines_of(text).len() == 1 ==> {
            &&& taken_said(text, true) == "cut "@ + decimal(1) + " line"@
            &&& taken_said(text, false) == "copied "@ + decimal(1) + " line"@
        },
        crate::words::lines_of(text).len() != 1 ==> {
            let n = crate::words::lines_of(text).len();
            &&& taken_said(text, true) == "cut "@ + decimal(n) + " lines"@
            &&& taken_said(text, false) == "copied "@ + decimal(n) + " lines"@
        },
{
    reveal_strlit("");
    reveal_strlit("s");
    reveal_strlit(" line");
    reveal_strlit(" lines");
    assert(" lines"@ =~= " line"@ + "s"@);
    let k = crate::words::lines_of(text).len();
    assert(taken_said(text, true) =~= "cut "@ + decimal(k) + (" line"@ + (if k == 1 {
        ""@
    } else {
        "s"@
    })));
    assert(taken_said(text, false) =~= "copied "@ + decimal(k) + (" line"@ + (if k == 1 {
        ""@
    } else {
        "s"@
    })));
    assert(" line"@ + ""@ =~= " line"@);
}

} // verus!
