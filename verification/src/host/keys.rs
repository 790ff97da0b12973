//! Keys, and what the composer makes of them.

use crate::text::chars_of;
use vstd::prelude::*;

verus! {

/// Which key it was.
#[derive(Debug)]
pub enum KeyCode {
    Esc,
    Enter,
    Backspace,
    Delete,
    Tab,
    Left,
    Right,
    Up,
    Down,
    Home,
    End,
    PageUp,
    PageDown,
    /// A grapheme, not a character: a dead-key accent and the letter it lands on arrive together.
    Char(String),
    Other,
}

/// What was held down with it.
#[derive(Debug, Clone, Copy, PartialEq, Eq, Structural)]
pub struct Mods {
    pub ctrl: bool,
    pub alt: bool,
    pub shift: bool,
}

/// One key press.
#[derive(Debug)]
pub struct KeyPress {
    pub code: KeyCode,
    pub mods: Mods,
}

impl KeyPress {
    /// What it types. Nothing, for a key that does not.
    pub open spec fn typed(self) -> Seq<char> {
        match self.code {
            KeyCode::Char(c) => c@,
            _ => seq![],
        }
    }

    /// The one character it types, if that is all it types.
    pub open spec fn one(self) -> Option<char> {
        if self.typed().len() == 1 {
            Some(self.typed()[0])
        } else {
            None
        }
    }

    /// The first character it types.
    pub open spec fn first(self) -> Option<char> {
        if self.typed().len() > 0 {
            Some(self.typed()[0])
        } else {
            None
        }
    }

    /// What it types.
    pub fn chars(&self) -> (r: Vec<char>)
        ensures
            r@ == self.typed(),
    {
        match &self.code {
            KeyCode::Char(c) => chars_of(c.as_str()),
            _ => {
                let none: Vec<char> = Vec::new();
                assert(none@ =~= seq![]);
                none
            },
        }
    }
}

/// The mode the keyboard is in.
#[derive(Debug, Clone, Copy, PartialEq, Eq, Structural)]
pub enum Mode {
    Chat,
    Normal,
    Insert,
    Visual,
}

/// An edit of the text in the composer.
#[derive(Debug, Clone, Copy, PartialEq, Eq, Structural)]
pub enum Edit {
    DeleteWordBack,
    DeleteBack,
    DeleteWordForward,
    DeleteForward,
    DeleteToLineStart,
}

/// A motion of the cursor in the composer.
#[derive(Debug, Clone, Copy, PartialEq, Eq, Structural)]
pub enum CursorMotion {
    Left,
    Right,
    WordLeft,
    WordRight,
    Up,
    Down,
    LineStart,
    LineEnd,
    BufStart,
    BufEnd,
}

/// What a key that nothing claimed does.
#[derive(Debug, Clone, Copy, PartialEq, Eq, Structural)]
pub enum Unbound {
    Nothing,
    /// Stop the turn that is running in the conversation on screen.
    Interrupt,
    /// A line break where a send would be.
    Newline,
    /// Send what is in the composer.
    Send,
    /// Take the last attached image back off.
    DropAttachment,
    Edit(Edit),
    /// Move, extending the selection if so.
    Move(CursorMotion, bool),
    /// Scroll the transcript: up, or down.
    ScrollUp,
    ScrollDown,
    /// Insert what was typed.
    Insert,
}

/// What the composer is like when a key arrives.
#[derive(Debug, Clone, Copy)]
pub struct Composing {
    /// Nothing has been typed.
    pub empty: bool,
    /// Nothing has been typed but white space.
    pub blank: bool,
    /// An image is attached that has not been sent.
    pub attached: bool,
    /// The cursor is on the first line.
    pub first_line: bool,
    /// The cursor is on the last line.
    pub last_line: bool,
}

/// What a key that nothing claimed does in chat, where the composer is a real text field.
pub open spec fn composer_does(key: KeyPress, c: Composing) -> Unbound {
    let m = key.mods;
    let wide = m.ctrl || m.alt;
    match key.code {
        KeyCode::Enter => if m.shift || m.alt {
            Unbound::Newline
        } else if c.blank {
            Unbound::Nothing
        } else {
            Unbound::Send
        },
        KeyCode::Backspace => if c.empty && c.attached {
            Unbound::DropAttachment
        } else if wide {
            Unbound::Edit(Edit::DeleteWordBack)
        } else {
            Unbound::Edit(Edit::DeleteBack)
        },
        KeyCode::Delete => if wide {
            Unbound::Edit(Edit::DeleteWordForward)
        } else {
            Unbound::Edit(Edit::DeleteForward)
        },
        KeyCode::Left => Unbound::Move(
            if wide {
                CursorMotion::WordLeft
            } else {
                CursorMotion::Left
            },
            m.shift,
        ),
        KeyCode::Right => Unbound::Move(
            if wide {
                CursorMotion::WordRight
            } else {
                CursorMotion::Right
            },
            m.shift,
        ),
        KeyCode::Up => if c.first_line && !m.shift {
            Unbound::ScrollUp
        } else {
            Unbound::Move(CursorMotion::Up, m.shift)
        },
        KeyCode::Down => if c.last_line && !m.shift {
            Unbound::ScrollDown
        } else {
            Unbound::Move(CursorMotion::Down, m.shift)
        },
        KeyCode::Home => Unbound::Move(
            if m.ctrl {
                CursorMotion::BufStart
            } else {
                CursorMotion::LineStart
            },
            m.shift,
        ),
        KeyCode::End => Unbound::Move(
            if m.ctrl {
                CursorMotion::BufEnd
            } else {
                CursorMotion::LineEnd
            },
            m.shift,
        ),
        KeyCode::Char(t) => if m.ctrl {
            if t@ == seq!['a'] {
                Unbound::Move(CursorMotion::LineStart, false)
            } else if t@ == seq!['u'] {
                Unbound::Edit(Edit::DeleteToLineStart)
            } else if t@ == seq!['w'] {
                Unbound::Edit(Edit::DeleteWordBack)
            } else {
                Unbound::Nothing
            }
        } else if m.alt {
            Unbound::Nothing
        } else {
            Unbound::Insert
        },
        _ => Unbound::Nothing,
    }
}

/// What a key that nothing claimed does. `Esc` always interrupts, because a key that stops the thing
/// that is running must not depend on where you happen to be.
pub open spec fn unbound_does(key: KeyPress, mode: Mode, c: Composing) -> Unbound {
    if key.code is Esc {
        Unbound::Interrupt
    } else if mode != Mode::Chat {
        Unbound::Nothing
    } else {
        composer_does(key, c)
    }
}

/// Keys nothing claimed.
pub fn handle_unbound_key(key: &KeyPress, mode: Mode, c: Composing) -> (r: Unbound)
    ensures
        r == unbound_does(*key, mode, c),
{
    let m = key.mods;
    let wide = m.ctrl || m.alt;
    match &key.code {
        KeyCode::Esc => {
            return Unbound::Interrupt;
        },
        _ => {},
    }
    match mode {
        Mode::Chat => {},
        _ => return Unbound::Nothing,
    }
    match &key.code {
        // The composer is multi-line, and pasting a snippet into it should not fire off half a
        // question.
        KeyCode::Enter => if m.shift || m.alt {
            Unbound::Newline
        } else if c.blank {
            Unbound::Nothing
        } else {
            Unbound::Send
        },
        // Nothing left to erase, and a chip above the field: the next backspace takes that off.
        KeyCode::Backspace => if c.empty && c.attached {
            Unbound::DropAttachment
        } else if wide {
            Unbound::Edit(Edit::DeleteWordBack)
        } else {
            Unbound::Edit(Edit::DeleteBack)
        },
        KeyCode::Delete => if wide {
            Unbound::Edit(Edit::DeleteWordForward)
        } else {
            Unbound::Edit(Edit::DeleteForward)
        },
        KeyCode::Left => Unbound::Move(
            if wide {
                CursorMotion::WordLeft
            } else {
                CursorMotion::Left
            },
            m.shift,
        ),
        KeyCode::Right => Unbound::Move(
            if wide {
                CursorMotion::WordRight
            } else {
                CursorMotion::Right
            },
            m.shift,
        ),
        // Vertical keys do double duty, decided by where the cursor already is: on the first line
        // of a one-line composer, which is nearly always, up is how you look back at what was said.
        KeyCode::Up => if c.first_line && !m.shift {
            Unbound::ScrollUp
        } else {
            Unbound::Move(CursorMotion::Up, m.shift)
        },
        KeyCode::Down => if c.last_line && !m.shift {
            Unbound::ScrollDown
        } else {
            Unbound::Move(CursorMotion::Down, m.shift)
        },
        KeyCode::Home => Unbound::Move(
            if m.ctrl {
                CursorMotion::BufStart
            } else {
                CursorMotion::LineStart
            },
            m.shift,
        ),
        KeyCode::End => Unbound::Move(
            if m.ctrl {
                CursorMotion::BufEnd
            } else {
                CursorMotion::LineEnd
            },
            m.shift,
        ),
        KeyCode::Char(t) => if m.ctrl {
            let cs = chars_of(t.as_str());
            proof {
                if t@.len() == 1 {
                    assert(t@ =~= seq![t@[0]]);
                }
                assert(seq!['a'][0] == 'a' && seq!['u'][0] == 'u' && seq!['w'][0] == 'w');
            }
            if cs.len() != 1 {
                Unbound::Nothing
            } else if cs[0] == 'a' {
                Unbound::Move(CursorMotion::LineStart, false)
            } else if cs[0] == 'u' {
                Unbound::Edit(Edit::DeleteToLineStart)
            } else if cs[0] == 'w' {
                Unbound::Edit(Edit::DeleteWordBack)
            } else {
                Unbound::Nothing
            }
        } else if m.alt {
            Unbound::Nothing
        } else {
            Unbound::Insert
        },
        _ => Unbound::Nothing,
    }
}

/// No key sends an empty message, and none but a plain `Enter` sends at all.
pub proof fn only_enter_sends(key: KeyPress, mode: Mode, c: Composing)
    requires
        unbound_does(key, mode, c) == Unbound::Send,
    ensures
        key.code is Enter,
        !key.mods.shift && !key.mods.alt,
        mode == Mode::Chat,
        !c.blank,
{
}

} // verus!
