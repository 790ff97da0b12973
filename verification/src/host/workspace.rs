//! The workspace: what it holds between one event and the next, and how it goes from one
//! conversation, and one way of looking at it, to another.

use crate::host::chat::Chat;
use crate::host::commands::{OnQuit, BUILTIN};
use crate::host::keys::Mode;
use crate::host::options::{declare_builtin_options, shaped, worktrees, OptionSpec, OPTIONS};
use crate::host::places::{first_part, machine_name};
use crate::host::prompts::{SearchPrompt, SecretPrompt};
use crate::host::pulse::Pulse;
use crate::host::reading::{Reader, SelectShape};
use crate::host::rounds::Turns;
use crate::host::startup::Startup;
use crate::host::swarm::Swarm;
use crate::host::transcript::is_quiet;
use vstd::prelude::*;

verus! {

/// Everything the workspace holds.
#[derive(Debug)]
pub struct Host {
    /// The transcript on screen.
    pub chat: Chat,
    /// The first row of it that is shown. Nothing is following the newest.
    pub chat_top: Option<u32>,
    /// How many rows of it are the welcome.
    pub welcome_rows: usize,
    pub turns: Turns,
    /// The keyboard's mode.
    pub mode: Mode,
    /// The transcript is being read.
    pub reading: bool,
    pub reader: Reader,
    pub shape: SelectShape,
    /// The column that moving up and down keeps to.
    pub goal: Option<usize>,
    /// The mode to go back to.
    pub mode_before_reading: Mode,
    /// The hits of a search are lit.
    pub lit: bool,
    pub search: Option<SearchPrompt>,
    pub secret: Option<SecretPrompt>,
    pub startup: Startup,
    pub swarm: Swarm,
    /// What this machine is called.
    pub name: String,
    pub options: Vec<OptionSpec>,
    pub pulse: Pulse,
    pub quitting: bool,
    pub on_quit: OnQuit,
    /// When the first of two presses came.
    pub quit_armed: Option<u64>,
}

/// Whether these are the settings as they stand when nobody has said anything.
pub open spec fn are_declared(v: Seq<OptionSpec>, home: Option<&str>) -> bool {
    v.len() == 34 && forall|i: int|
        0 <= i < 34 ==> {
            &&& (#[trigger] v[i]).name@ == OPTIONS@[i].0@
            &&& v[i].owner@ == BUILTIN@
            &&& shaped(v[i].ty, v[i].default, OPTIONS@[i], worktrees(home))
            &&& v[i].description@ == OPTIONS@[i].4@
        }
}

/// The workspace with its transcript being read. The keymap is told: reading's keys are the last
/// thing consulted, and half of them would otherwise be taken by whatever loaded first.
pub open spec fn entered(h: Host) -> Host {
    if h.reading {
        h
    } else {
        Host {
            reading: true,
            reader: Reader { pending: None, ..h.reader },
            shape: SelectShape::Exclusive,
            goal: None,
            mode_before_reading: h.mode,
            mode: Mode::Normal,
            ..h
        }
    }
}

/// The workspace back in the composer, and following the newest again, because that is what the
/// composer is the bottom of.
pub open spec fn left(h: Host) -> Host {
    if !h.reading {
        h
    } else {
        Host {
            reading: false,
            reader: Reader { pending: None, count: 0, ..h.reader },
            shape: SelectShape::Exclusive,
            goal: None,
            mode: h.mode_before_reading,
            lit: false,
            chat_top: None,
            ..h
        }
    }
}

/// Reading the transcript and coming back gives the keyboard back as it was, and changes nothing of
/// what was being worked on.
pub proof fn reading_gives_the_keyboard_back(h: Host)
    requires
        !h.reading,
    ensures
        ({
            let back = left(entered(h));
            &&& !back.reading
            &&& back.mode == h.mode
            &&& back.chat_top is None
            &&& back.chat == h.chat
            &&& back.turns == h.turns
            &&& back.startup == h.startup
            &&& back.swarm == h.swarm
            &&& back.options == h.options
        }),
{
}

impl Host {
    pub open spec fn wf(self) -> bool {
        self.chat.wf() && self.turns.wf() && self.reader.wf() && self.swarm.wf()
    }

    /// A workspace with nothing in it yet. Its settings are declared before anything reads one: one
    /// that is not reads as nothing, and conversations are drawn before configuration is read.
    pub fn new(home: Option<&str>, hostname: Option<&str>, computername: Option<&str>) -> (r: Host)
        ensures
            r.wf(),
            r.chat@.shown.lines.len() == 0,
            r.chat@.shown.marks.len() == 0,
            r.chat@.cards.len() == 0,
            is_quiet(r.chat@),
            r.chat_top is None,
            r.welcome_rows == 0,
            r.turns.running@.len() == 0,
            r.mode == Mode::Chat,
            !r.reading,
            r.reader == (Reader { pending: None, count: 0, sought: None }),
            r.shape == SelectShape::Exclusive,
            r.goal is None,
            r.mode_before_reading == Mode::Chat,
            !r.lit,
            r.search is None,
            r.secret is None,
            !r.startup.discovered,
            r.startup.loading == 0,
            r.startup.generation == 0,
            r.startup.scripts@.len() == 0,
            !r.startup.pinned,
            r.swarm.me is None,
            r.swarm.pending@.len() == 0,
            ({
                let given = if hostname is Some {
                    hostname
                } else {
                    computername
                };
                r.name@ == (if given is Some && first_part(given->0@).len() > 0 {
                    first_part(given->0@)
                } else {
                    "neosh"@
                })
            }),
            are_declared(r.options@, home),
            r.pulse == (Pulse { armed: false, waiting: false, ticking: false, backoff: 0 }),
            !r.quitting,
            r.on_quit == OnQuit::Stop,
            r.quit_armed is None,
    {
        Host {
            chat: Chat::new(),
            chat_top: None,
            welcome_rows: 0,
            turns: Turns::new(),
            mode: Mode::Chat,
            reading: false,
            reader: Reader::new(),
            shape: SelectShape::Exclusive,
            goal: None,
            mode_before_reading: Mode::Chat,
            lit: false,
            search: None,
            secret: None,
            startup: Startup::new(),
            swarm: Swarm::new(),
            name: machine_name(hostname, computername, "neosh"),
            options: declare_builtin_options(home),
            pulse: Pulse::new(),
            quitting: false,
            on_quit: OnQuit::Stop,
            quit_armed: None,
        }
    }

    /// This is a workspace that others look at, and leaving sends them away.
    pub fn serve(&mut self)
        ensures
            *final(self) == (Host { on_quit: OnQuit::Detach, ..*old(self) }),
    {
        self.on_quit = OnQuit::Detach;
    }

    /// Read the transcript. What comes back is the row to start on: the newest, since you came here
    /// to take something out of the answer you are looking at.
    pub fn enter_reading(&mut self) -> (r: Option<usize>)
        requires
            old(self).wf(),
        ensures
            final(self).wf(),
            *final(self) == entered(*old(self)),
            match r {
                None => old(self).reading,
                Some(row) => !old(self).reading && row == (if old(self).chat@.shown.lines.len() == 0 {
                    0
                } else {
                    old(self).chat@.shown.lines.len() - 1
                }),
            },
    {
        if self.reading {
            return None;
        }
        self.reading = true;
        self.reader.pending = None;
        self.shape = SelectShape::Exclusive;
        self.goal = None;
        self.mode_before_reading = self.mode;
        self.mode = Mode::Normal;
        let n = self.chat.screen.lines.len();
        Some(
            if n == 0 {
                0
            } else {
                n - 1
            },
        )
    }

    /// Go back to the composer. Whether there was anything to leave.
    pub fn leave_reading(&mut self) -> (r: bool)
        requires
            old(self).wf(),
        ensures
            final(self).wf(),
            *final(self) == left(*old(self)),
            r == old(self).reading,
    {
        if !self.reading {
            return false;
        }
        self.reading = false;
        self.reader.pending = None;
        self.reader.count = 0;
        self.shape = SelectShape::Exclusive;
        self.goal = None;
        self.mode = self.mode_before_reading;
        self.lit = false;
        self.chat_top = None;
        true
    }

    /// Arrive in a conversation, with its transcript drawn. Reading is a place in the conversation
    /// being left, and goes with it.
    pub fn enter_session(&mut self, transcript: Chat)
        requires
            old(self).wf(),
            transcript.wf(),
        ensures
            final(self).wf(),
            *final(self) == (Host {
                chat: transcript,
                chat_top: None,
                welcome_rows: 0,
                ..left(*old(self))
            }),
    {
        self.leave_reading();
        self.chat = transcript;
        self.chat_top = None;
        self.welcome_rows = 0;
    }

    /// A frontend says what it drew, which is not always what was asked for: taking it back means
    /// that the next page starts from where the screen is. Whether the welcome is drawn again, which
    /// is drawn to a width.
    pub fn viewport_changed(&mut self, transcript: bool, top: u32, was: usize, is: usize) -> (r: bool)
        ensures
            *final(self) == (if transcript && old(self).chat_top is Some {
                Host { chat_top: Some(top), ..*old(self) }
            } else {
                *old(self)
            }),
            r == (transcript && was != is),
    {
        if transcript && self.chat_top.is_some() {
            self.chat_top = Some(top);
        }
        transcript && was != is
    }
}

} // verus!
