//! Reading the transcript: a modal reader whose keys are vi's.
//!
//! A motion extends a running selection without being told to. A key that cannot act on its own
//! waits for exactly one more, whatever that turns out to be, so a mistyped second key ends the
//! sequence instead of leaving the next unrelated press to be swallowed by it.

use crate::host::keys::{KeyCode, KeyPress};
use crate::text::chars_of;
use vstd::prelude::*;

verus! {

/// What the reader is waiting for, after a key that cannot act on its own.
#[derive(Debug, Clone, Copy, PartialEq, Eq, Structural)]
pub enum Pending {
    /// `g`, waiting for `g`, `e`, `E`, `_` or `v`.
    G,
    /// `z`, waiting for where on the screen to put the cursor's line.
    Z,
    /// `y`, waiting for what to copy.
    Yank,
    /// `f`, `F`, `t` or `T`, waiting for a character: whether to stop before it, and whether to
    /// look back.
    Find(bool, bool),
    /// `i` or `a`, waiting for which text object: whether around it, and whether to copy it.
    Object(bool, bool),
}

/// A motion in the transcript.
#[derive(Debug, Clone, Copy, PartialEq, Eq, Structural)]
pub enum Motion {
    Left,
    Right,
    Up,
    Down,
    /// Whether words are runs of anything but white space.
    WordRight(bool),
    WordLeft(bool),
    WordEnd(bool),
    WordEndBack(bool),
    LineStart,
    FirstNonBlank,
    LastNonBlank,
    LineEnd,
    BufStart,
    BufEnd,
    Row(u32),
    MatchPair,
    /// A character, whether to stop before it, and whether to look back.
    Find(char, bool, bool),
}

/// A text object.
#[derive(Debug, Clone, Copy, PartialEq, Eq, Structural)]
pub enum Object {
    Word(bool),
    Paragraph,
    Quote(char),
    Pair(char, char),
}

/// What a selection takes.
#[derive(Debug, Clone, Copy, PartialEq, Eq, Structural)]
pub enum SelectShape {
    Exclusive,
    Inclusive,
    Line,
}

/// What a key does while reading.
#[derive(Debug, Clone, Copy, PartialEq, Eq, Structural)]
pub enum Act {
    Nothing,
    /// Only what the keys do next has changed.
    Refresh,
    /// Go somewhere so many times, starting a selection first if so.
    Go(Motion, u32, bool),
    /// Move by whole rows, keeping the column.
    By(i64),
    /// Move the window, and take the cursor along only if it would fall off.
    Scroll(i64),
    /// Say that there is no blockwise selection.
    NoBlocks,
    ToTurn(bool),
    ToBlock(bool),
    /// Go to a row counted from the top of the window.
    ScreenRow(u32),
    Select(SelectShape),
    SwapEnds,
    ToggleCard,
    /// Start a search, backwards if so.
    Search(bool),
    /// On to the next hit in the direction the search was going, or back.
    SearchStep(bool),
    /// Search for the word under the cursor, forwards if so.
    SearchWord(bool),
    /// Copy the selection and leave.
    Copy,
    YankLine,
    YankCode,
    YankTurn,
    YankAll,
    /// Copy what a motion covers.
    YankOver(Motion, u32),
    /// Say what can follow `y`.
    YankHelp,
    /// Take a text object: whether around it, and whether to copy it.
    Take(Object, bool, bool),
    Reselect,
    /// Scroll so that the cursor's line is so many rows down the window.
    PlaceLine(u32),
    DropSelection,
    ClearSearch,
    Leave,
}

/// Which text object a key names.
pub open spec fn object_named(c: char) -> Option<Object> {
    if c == 'w' {
        Some(Object::Word(false))
    } else if c == 'W' {
        Some(Object::Word(true))
    } else if c == 'p' {
        Some(Object::Paragraph)
    } else if c == '"' || c == '\'' || c == '`' {
        Some(Object::Quote(c))
    } else if c == '(' || c == ')' || c == 'b' {
        Some(Object::Pair('(', ')'))
    } else if c == '[' || c == ']' {
        Some(Object::Pair('[', ']'))
    } else if c == '{' || c == '}' || c == 'B' {
        Some(Object::Pair('{', '}'))
    } else if c == '<' || c == '>' {
        Some(Object::Pair('<', '>'))
    } else {
        None
    }
}

/// Which text object a key names.
pub fn object_for(ch: &str) -> (r: Option<Object>)
    ensures
        r == (if ch@.len() == 1 {
            object_named(ch@[0])
        } else {
            None
        }),
{
    let cs = chars_of(ch);
    if cs.len() != 1 {
        return None;
    }
    object_of(cs[0])
}

fn object_of(c: char) -> (r: Option<Object>)
    ensures
        r == object_named(c),
{
    if c == 'w' {
        Some(Object::Word(false))
    } else if c == 'W' {
        Some(Object::Word(true))
    } else if c == 'p' {
        Some(Object::Paragraph)
    } else if c == '"' || c == '\'' || c == '`' {
        Some(Object::Quote(c))
    } else if c == '(' || c == ')' || c == 'b' {
        Some(Object::Pair('(', ')'))
    } else if c == '[' || c == ']' {
        Some(Object::Pair('[', ']'))
    } else if c == '{' || c == '}' || c == 'B' {
        Some(Object::Pair('{', '}'))
    } else if c == '<' || c == '>' {
        Some(Object::Pair('<', '>'))
    } else {
        None
    }
}

/// The last thing looked for on a line: the character, whether to stop before it, and whether to
/// look back.
pub type Sought = Option<(char, bool, bool)>;

/// The motions that mean the same alone and after `y`.
pub open spec fn common_motion(c: char) -> Option<Motion> {
    if c == 'w' {
        Some(Motion::WordRight(false))
    } else if c == 'W' {
        Some(Motion::WordRight(true))
    } else if c == 'b' {
        Some(Motion::WordLeft(false))
    } else if c == 'B' {
        Some(Motion::WordLeft(true))
    } else if c == 'e' {
        Some(Motion::WordEnd(false))
    } else if c == 'E' {
        Some(Motion::WordEnd(true))
    } else if c == 'h' {
        Some(Motion::Left)
    } else if c == 'l' || c == ' ' {
        Some(Motion::Right)
    } else if c == 'j' {
        Some(Motion::Down)
    } else if c == 'k' {
        Some(Motion::Up)
    } else if c == '0' {
        Some(Motion::LineStart)
    } else if c == '^' {
        Some(Motion::FirstNonBlank)
    } else if c == '$' {
        Some(Motion::LineEnd)
    } else if c == 'G' {
        Some(Motion::BufEnd)
    } else if c == '%' {
        Some(Motion::MatchPair)
    } else {
        None
    }
}

fn common(c: char) -> (r: Option<Motion>)
    ensures
        r == common_motion(c),
{
    if c == 'w' {
        Some(Motion::WordRight(false))
    } else if c == 'W' {
        Some(Motion::WordRight(true))
    } else if c == 'b' {
        Some(Motion::WordLeft(false))
    } else if c == 'B' {
        Some(Motion::WordLeft(true))
    } else if c == 'e' {
        Some(Motion::WordEnd(false))
    } else if c == 'E' {
        Some(Motion::WordEnd(true))
    } else if c == 'h' {
        Some(Motion::Left)
    } else if c == 'l' || c == ' ' {
        Some(Motion::Right)
    } else if c == 'j' {
        Some(Motion::Down)
    } else if c == 'k' {
        Some(Motion::Up)
    } else if c == '0' {
        Some(Motion::LineStart)
    } else if c == '^' {
        Some(Motion::FirstNonBlank)
    } else if c == '$' {
        Some(Motion::LineEnd)
    } else if c == 'G' {
        Some(Motion::BufEnd)
    } else if c == '%' {
        Some(Motion::MatchPair)
    } else {
        None
    }
}

/// The motions `y` takes as its second key. `;` repeats what was last looked for on a line.
pub open spec fn yank_motion(c: char, sought: Sought) -> Option<Motion> {
    if c == ';' {
        match sought {
            Some((ch, till, back)) => Some(Motion::Find(ch, till, back)),
            None => None,
        }
    } else {
        common_motion(c)
    }
}

/// The motions `y` will take as its second key.
pub fn yank_motion_for(c: char, sought: Sought) -> (r: Option<Motion>)
    ensures
        r == yank_motion(c, sought),
{
    if c == ';' {
        match sought {
            Some((ch, till, back)) => Some(Motion::Find(ch, till, back)),
            None => None,
        }
    } else {
        common(c)
    }
}

/// The motion a key stands for on its own. `;` and `,` repeat what was last looked for on a line,
/// the second the other way.
pub open spec fn key_motion(code: KeyCode, one: Option<char>, sought: Sought) -> Option<Motion> {
    match code {
        KeyCode::Left => Some(Motion::Left),
        KeyCode::Right => Some(Motion::Right),
        KeyCode::Up => Some(Motion::Up),
        KeyCode::Down => Some(Motion::Down),
        KeyCode::Home => Some(Motion::LineStart),
        KeyCode::End => Some(Motion::LineEnd),
        _ => match one {
            Some(c) => if c == ',' {
                match sought {
                    Some((ch, till, back)) => Some(Motion::Find(ch, till, !back)),
                    None => None,
                }
            } else {
                yank_motion(c, sought)
            },
            None => None,
        },
    }
}

fn motion_of(code: &KeyCode, one: Option<char>, sought: Sought) -> (r: Option<Motion>)
    ensures
        r == key_motion(*code, one, sought),
{
    match code {
        KeyCode::Left => Some(Motion::Left),
        KeyCode::Right => Some(Motion::Right),
        KeyCode::Up => Some(Motion::Up),
        KeyCode::Down => Some(Motion::Down),
        KeyCode::Home => Some(Motion::LineStart),
        KeyCode::End => Some(Motion::LineEnd),
        _ => match one {
            Some(c) => if c == ',' {
                match sought {
                    Some((ch, till, back)) => Some(Motion::Find(ch, till, !back)),
                    None => None,
                }
            } else {
                yank_motion_for(c, sought)
            },
            None => None,
        },
    }
}

/// What a chord does: half a screen, a screen, or the window. A chord is a different key and not a
/// modified one.
pub open spec fn chord(c: char, n: int, page: int) -> Option<Act> {
    if c == 'd' {
        Some(Act::By((n * (page + 1) / 2) as i64))
    } else if c == 'u' {
        Some(Act::By(-(n * (page + 1) / 2) as i64))
    } else if c == 'f' {
        Some(Act::By((n * page) as i64))
    } else if c == 'b' {
        Some(Act::By(-(n * page) as i64))
    } else if c == 'e' {
        Some(Act::Scroll(n as i64))
    } else if c == 'y' {
        Some(Act::Scroll(-n as i64))
    } else if c == 'v' {
        Some(Act::NoBlocks)
    } else {
        None
    }
}

/// The keys that cannot act on their own. `y` is an operator when nothing is selected and "copy
/// this" when something is; `i` and `a` are the front half of a text object only inside a selection.
pub open spec fn opener(c: char, anchored: bool) -> Option<Pending> {
    if c == 'g' {
        Some(Pending::G)
    } else if c == 'z' {
        Some(Pending::Z)
    } else if c == 'y' && !anchored {
        Some(Pending::Yank)
    } else if c == 'f' {
        Some(Pending::Find(false, false))
    } else if c == 'F' {
        Some(Pending::Find(false, true))
    } else if c == 't' {
        Some(Pending::Find(true, false))
    } else if c == 'T' {
        Some(Pending::Find(true, true))
    } else if (c == 'i' || c == 'a') && anchored {
        Some(Pending::Object(c == 'a', false))
    } else {
        None
    }
}

fn opener_of(c: char, anchored: bool) -> (r: Option<Pending>)
    ensures
        r == opener(c, anchored),
{
    if c == 'g' {
        Some(Pending::G)
    } else if c == 'z' {
        Some(Pending::Z)
    } else if c == 'y' && !anchored {
        Some(Pending::Yank)
    } else if c == 'f' {
        Some(Pending::Find(false, false))
    } else if c == 'F' {
        Some(Pending::Find(false, true))
    } else if c == 't' {
        Some(Pending::Find(true, false))
    } else if c == 'T' {
        Some(Pending::Find(true, true))
    } else if (c == 'i' || c == 'a') && anchored {
        Some(Pending::Object(c == 'a', false))
    } else {
        None
    }
}

/// What the second key of a pair does, and what it waits for in turn.
pub open spec fn pair(
    first: Pending,
    c: char,
    typed: Option<u32>,
    page: u32,
    sought: Sought,
) -> (Act, Option<Pending>) {
    let count = match typed {
        Some(n) => n,
        None => 1,
    };
    match first {
        Pending::G => (
            if c == 'g' {
                match typed {
                    Some(n) => Act::Go(Motion::Row((n - 1) as u32), 1, false),
                    None => Act::Go(Motion::BufStart, 1, false),
                }
            } else if c == 'e' {
                Act::Go(Motion::WordEndBack(false), count, false)
            } else if c == 'E' {
                Act::Go(Motion::WordEndBack(true), count, false)
            } else if c == '_' {
                Act::Go(Motion::LastNonBlank, count, false)
            } else if c == 'v' {
                Act::Reselect
            } else {
                Act::Nothing
            },
            None,
        ),
        Pending::Z => (
            if c == 'z' || c == '.' {
                Act::PlaceLine(page / 2)
            } else if c == 't' {
                Act::PlaceLine(0)
            } else if c == 'b' || c == '-' {
                Act::PlaceLine(if page > 0 { (page - 1) as u32 } else { 0 })
            } else if c == 'a' {
                Act::ToggleCard
            } else {
                Act::Nothing
            },
            None,
        ),
        Pending::Yank => if c == 'y' {
            (Act::YankLine, None)
        } else if c == 'c' {
            (Act::YankCode, None)
        } else if c == 'm' || c == 't' {
            (Act::YankTurn, None)
        } else if c == 'a' {
            (Act::YankAll, None)
        } else if c == 'i' {
            (Act::Refresh, Some(Pending::Object(false, true)))
        } else {
            match yank_motion(c, sought) {
                Some(m) => (Act::YankOver(m, count), None),
                None => (Act::YankHelp, None),
            }
        },
        Pending::Object(around, yank) => (
            match object_named(c) {
                Some(o) => Act::Take(o, around, yank),
                None => Act::Nothing,
            },
            None,
        ),
        Pending::Find(_, _) => (Act::Nothing, None),
    }
}

/// What a key does that neither waits nor moves.
pub open spec fn plain_act(
    code: KeyCode,
    one: Option<char>,
    count: u32,
    anchored: bool,
    searched: bool,
    page: u32,
) -> Act {
    match code {
        KeyCode::PageDown => Act::By((count * page) as i64),
        KeyCode::PageUp => Act::By(-(count * page) as i64),
        KeyCode::Tab => Act::ToggleCard,
        KeyCode::Enter => Act::Leave,
        KeyCode::Esc => if anchored {
            Act::DropSelection
        } else if searched {
            Act::ClearSearch
        } else {
            Act::Leave
        },
        _ => match one {
            None => Act::Nothing,
            Some(c) => if c == ']' {
                Act::ToTurn(true)
            } else if c == '[' {
                Act::ToTurn(false)
            } else if c == '}' {
                Act::ToBlock(true)
            } else if c == '{' {
                Act::ToBlock(false)
            } else if c == 'H' {
                Act::ScreenRow((count - 1) as u32)
            } else if c == 'M' {
                Act::ScreenRow(page / 2)
            } else if c == 'L' {
                Act::ScreenRow(if page > count { (page - count) as u32 } else { 0 })
            } else if c == 'v' {
                Act::Select(SelectShape::Inclusive)
            } else if c == 'V' {
                Act::Select(SelectShape::Line)
            } else if c == 'o' && anchored {
                Act::SwapEnds
            } else if c == '/' {
                Act::Search(false)
            } else if c == '?' {
                Act::Search(true)
            } else if c == 'n' {
                Act::SearchStep(true)
            } else if c == 'N' {
                Act::SearchStep(false)
            } else if c == '*' {
                Act::SearchWord(true)
            } else if c == '#' {
                Act::SearchWord(false)
            } else if c == 'y' {
                Act::Copy
            } else if c == 'Y' {
                Act::YankLine
            } else if c == 'i' || c == 'a' || c == 'o' || c == 'q' {
                Act::Leave
            } else {
                Act::Nothing
            },
        },
    }
}

/// What the reader remembers between one key and the next.
#[derive(Debug, Clone, Copy)]
pub struct Reader {
    pub pending: Option<Pending>,
    /// The count typed before a motion, as far as it has been typed. None is zero.
    pub count: u32,
    /// What was last looked for on a line.
    pub sought: Sought,
}

/// The count that was typed, if one was. `G` is the end of the transcript and `1G` is its first row.
pub open spec fn counted(count: u32) -> Option<u32> {
    if count > 0 {
        Some(count)
    } else {
        None
    }
}

/// Whether a key is a digit of a count. `0` is the start of the line when nothing has been typed and
/// part of the number when something has.
pub open spec fn is_count(key: KeyPress, count: u32) -> bool {
    &&& !key.mods.ctrl && !key.mods.alt
    &&& key.first() is Some
    &&& '0' <= key.first()->0 <= '9'
    &&& !(key.first()->0 == '0' && count == 0)
}

/// What a key does while reading, and what the reader remembers afterwards.
pub open spec fn reads(
    r: Reader,
    key: KeyPress,
    anchored: bool,
    searched: bool,
    page: u32,
) -> (Act, Reader) {
    let typed = counted(r.count);
    let count = match typed {
        Some(n) => n,
        None => 1,
    };
    let spent = Reader { count: 0, ..r };
    if r.pending is Some && r.pending->0 is Find {
        let (till, back) = (r.pending->0->Find_0, r.pending->0->Find_1);
        match key.first() {
            Some(c) => (
                Act::Go(Motion::Find(c, till, back), count, false),
                Reader { pending: None, count: 0, sought: Some((c, till, back)) },
            ),
            None => (Act::Refresh, Reader { pending: None, ..spent }),
        }
    } else if is_count(key, r.count) {
        let digit = key.first()->0 as u32 - '0' as u32;
        (
            Act::Refresh,
            Reader {
                count: if r.count < 100 {
                    (r.count * 10 + digit) as u32
                } else {
                    r.count
                },
                ..r
            },
        )
    } else if key.mods.ctrl && key.one() is Some && chord(
        key.one()->0,
        count as int,
        page as int,
    ) is Some {
        (chord(key.one()->0, count as int, page as int)->0, Reader { pending: None, ..spent })
    } else if key.mods.ctrl || key.mods.alt {
        (Act::Nothing, Reader { pending: None, ..spent })
    } else if r.pending is Some {
        match key.one() {
            Some(c) => {
                let (act, next) = pair(r.pending->0, c, typed, page, r.sought);
                (act, Reader { pending: next, ..spent })
            },
            None => if key.typed().len() == 0 {
                (Act::Refresh, Reader { pending: None, ..spent })
            } else if r.pending->0 is Yank {
                (Act::YankHelp, Reader { pending: None, ..spent })
            } else {
                (Act::Nothing, Reader { pending: None, ..spent })
            },
        }
    } else if key.one() is Some && opener(key.one()->0, anchored) is Some {
        (Act::Refresh, Reader { pending: opener(key.one()->0, anchored), ..r })
    } else if key.one() == Some('G') && typed is Some {
        (Act::Go(Motion::Row((count - 1) as u32), 1, false), spent)
    } else {
        match key_motion(key.code, key.one(), r.sought) {
            Some(m) => (Act::Go(m, count, key.mods.shift && !anchored), spent),
            None => (plain_act(key.code, key.one(), count, anchored, searched, page), spent),
        }
    }
}

impl Reader {
    /// A count is at most three digits. More rows than any transcript has on screen, and what stops
    /// a leant-on key growing a number without end.
    pub open spec fn wf(self) -> bool {
        self.count <= 999
    }

    pub fn new() -> (r: Reader)
        ensures
            r.wf(),
            r == (Reader { pending: None, count: 0, sought: None }),
    {
        Reader { pending: None, count: 0, sought: None }
    }

    fn second(&mut self, first: Pending, c: char, typed: Option<u32>, page: u32) -> (r: Act)
        requires
            typed is Some ==> typed->0 >= 1,
        ensures
            r == pair(first, c, typed, page, old(self).sought).0,
            *final(self) == (Reader {
                pending: pair(first, c, typed, page, old(self).sought).1,
                ..*old(self)
            }),
    {
        self.pending = None;
        let count = match typed {
            Some(n) => n,
            None => 1,
        };
        match first {
            Pending::G => if c == 'g' {
                match typed {
                    Some(n) => Act::Go(Motion::Row(n - 1), 1, false),
                    None => Act::Go(Motion::BufStart, 1, false),
                }
            } else if c == 'e' {
                Act::Go(Motion::WordEndBack(false), count, false)
            } else if c == 'E' {
                Act::Go(Motion::WordEndBack(true), count, false)
            } else if c == '_' {
                Act::Go(Motion::LastNonBlank, count, false)
            } else if c == 'v' {
                Act::Reselect
            } else {
                Act::Nothing
            },
            Pending::Z => if c == 'z' || c == '.' {
                Act::PlaceLine(page / 2)
            } else if c == 't' {
                Act::PlaceLine(0)
            } else if c == 'b' || c == '-' {
                Act::PlaceLine(page.saturating_sub(1))
            } else if c == 'a' {
                Act::ToggleCard
            } else {
                Act::Nothing
            },
            Pending::Yank => if c == 'y' {
                Act::YankLine
            } else if c == 'c' {
                Act::YankCode
            } else if c == 'm' || c == 't' {
                Act::YankTurn
            } else if c == 'a' {
                Act::YankAll
            } else if c == 'i' {
                // Only the `i` half: `ya` is already "copy the whole transcript".
                self.pending = Some(Pending::Object(false, true));
                Act::Refresh
            } else {
                match yank_motion_for(c, self.sought) {
                    Some(m) => Act::YankOver(m, count),
                    None => Act::YankHelp,
                }
            },
            Pending::Object(around, yank) => match object_of(c) {
                Some(o) => Act::Take(o, around, yank),
                None => Act::Nothing,
            },
            Pending::Find(_, _) => Act::Nothing,
        }
    }

    /// Keys while reading the transcript. `anchored` says whether a selection is running, `searched`
    /// whether a search is highlighted, and `page` how many rows are on screen.
    pub fn reading_key(&mut self, key: &KeyPress, anchored: bool, searched: bool, page: u32) -> (r:
        Act)
        requires
            old(self).wf(),
        ensures
            final(self).wf(),
            r == reads(*old(self), *key, anchored, searched, page).0,
            *final(self) == reads(*old(self), *key, anchored, searched, page).1,
    {
        let chars = key.chars();
        let first: Option<char> = if chars.len() > 0 {
            Some(chars[0])
        } else {
            None
        };
        let one: Option<char> = if chars.len() == 1 {
            Some(chars[0])
        } else {
            None
        };
        let typed: Option<u32> = if self.count > 0 {
            Some(self.count)
        } else {
            None
        };
        let count: u32 = if self.count > 0 {
            self.count
        } else {
            1
        };
        // These take the next key as a *character* rather than as a command: `f5` finds a five.
        // Before the count and before every table, each of which would otherwise claim it first.
        if let Some(Pending::Find(till, back)) = self.pending {
            self.pending = None;
            self.count = 0;
            return match first {
                Some(c) => {
                    self.sought = Some((c, till, back));
                    Act::Go(Motion::Find(c, till, back), count, false)
                },
                None => Act::Refresh,
            };
        }
        if !key.mods.ctrl && !key.mods.alt {
            if let Some(d) = first {
                if '0' <= d && d <= '9' && !(d == '0' && self.count == 0) {
                    if self.count < 100 {
                        self.count = self.count * 10 + (d as u32 - '0' as u32);
                    }
                    return Act::Refresh;
                }
            }
        }
        // Whatever was typed, the motion that follows is the only thing that spends it, so a key
        // that is not a motion ends the count, which is what makes a half-typed one abandonable.
        self.count = 0;
        let n = count as i64;
        let p = page as i64;
        let waiting = self.pending;
        // A waiting key is spent by the next one whatever it is, so a chord ends it too.
        if key.mods.ctrl || key.mods.alt {
            self.pending = None;
        }
        if key.mods.ctrl {
            if let Some(c) = one {
                proof {
                    assert(0 <= n * (p + 1) <= 999 * 4294967296) by (nonlinear_arith)
                        requires
                            1 <= n <= 999,
                            0 <= p <= 4294967295,
                    ;
                    assert(0 <= n * p <= 999 * 4294967296) by (nonlinear_arith)
                        requires
                            1 <= n <= 999,
                            0 <= p <= 4294967295,
                    ;
                }
                // Half a screen because that is what they are everywhere; a full screen with no
                // overlap loses the line you were reading.
                if c == 'd' {
                    return Act::By(n * (p + 1) / 2);
                } else if c == 'u' {
                    return Act::By(-(n * (p + 1) / 2));
                } else if c == 'f' {
                    return Act::By(n * p);
                } else if c == 'b' {
                    return Act::By(-(n * p));
                } else if c == 'e' {
                    return Act::Scroll(n);
                } else if c == 'y' {
                    return Act::Scroll(-n);
                } else if c == 'v' {
                    return Act::NoBlocks;
                }
            }
        }
        // A chord this mode does not define does *nothing*, rather than being read as the letter it
        // is made of. Not shift: shift *is* a modifier on a motion here.
        if key.mods.ctrl || key.mods.alt {
            return Act::Nothing;
        }
        if let Some(pending) = waiting {
            return match one {
                Some(c) => self.second(pending, c, typed, page),
                None => {
                    self.pending = None;
                    if chars.len() == 0 {
                        Act::Refresh
                    } else {
                        match pending {
                            Pending::Yank => Act::YankHelp,
                            _ => Act::Nothing,
                        }
                    }
                },
            };
        }
        if let Some(c) = one {
            if let Some(waits) = opener_of(c, anchored) {
                self.pending = Some(waits);
                // Put the count back for the key that finishes the pair: `5gg` is one motion with
                // a number in front of it.
                if let Some(t) = typed {
                    self.count = t;
                }
                return Act::Refresh;
            }
            if c == 'G' {
                if let Some(t) = typed {
                    return Act::Go(Motion::Row(t - 1), 1, false);
                }
            }
        }
        if let Some(m) = motion_of(&key.code, one, self.sought) {
            return Act::Go(m, count, key.mods.shift && !anchored);
        }
        proof {
            assert(0 <= n * p <= 999 * 4294967296) by (nonlinear_arith)
                requires
                    1 <= n <= 999,
                    0 <= p <= 4294967295,
            ;
        }
        match &key.code {
            KeyCode::PageDown => Act::By(n * p),
            KeyCode::PageUp => Act::By(-(n * p)),
            KeyCode::Tab => Act::ToggleCard,
            KeyCode::Enter => Act::Leave,
            // Esc gives up one thing per press, in the order you stopped wanting them.
            KeyCode::Esc => if anchored {
                Act::DropSelection
            } else if searched {
                Act::ClearSearch
            } else {
                Act::Leave
            },
            _ => match one {
                None => Act::Nothing,
                Some(c) => if c == ']' {
                    Act::ToTurn(true)
                } else if c == '[' {
                    Act::ToTurn(false)
                } else if c == '}' {
                    Act::ToBlock(true)
                } else if c == '{' {
                    Act::ToBlock(false)
                } else if c == 'H' {
                    Act::ScreenRow(count - 1)
                } else if c == 'M' {
                    Act::ScreenRow(page / 2)
                } else if c == 'L' {
                    Act::ScreenRow(page.saturating_sub(count))
                } else if c == 'v' {
                    Act::Select(SelectShape::Inclusive)
                } else if c == 'V' {
                    Act::Select(SelectShape::Line)
                } else if c == 'o' && anchored {
                    Act::SwapEnds
                } else if c == '/' {
                    Act::Search(false)
                } else if c == '?' {
                    Act::Search(true)
                } else if c == 'n' {
                    Act::SearchStep(true)
                } else if c == 'N' {
                    Act::SearchStep(false)
                } else if c == '*' {
                    Act::SearchWord(true)
                } else if c == '#' {
                    Act::SearchWord(false)
                } else if c == 'y' {
                    Act::Copy
                } else if c == 'Y' {
                    Act::YankLine
                } else if c == 'i' || c == 'a' || c == 'o' || c == 'q' {
                    Act::Leave
                } else {
                    Act::Nothing
                },
            },
        }
    }
}

/// A key that waits is spent by the very next one, whatever that is: nothing is left waiting, unless
/// that key asks a question of its own. The digits of a count are not a key of their own: they belong
/// to the one that follows them.
pub proof fn a_pending_key_waits_for_one_more(
    r: Reader,
    key: KeyPress,
    anchored: bool,
    searched: bool,
    page: u32,
)
    requires
        r.pending is Some,
        !is_count(key, r.count) || r.pending->0 is Find,
    ensures
        reads(r, key, anchored, searched, page).1.pending is None || (r.pending == Some(
            Pending::Yank,
        ) && key.one() == Some('i')),
{
}

/// A chord that reading does not define does nothing, rather than what the letter alone would do, and
/// leaves nothing waiting.
pub proof fn an_undefined_chord_does_nothing(
    r: Reader,
    key: KeyPress,
    anchored: bool,
    searched: bool,
    page: u32,
)
    requires
        key.mods.ctrl || key.mods.alt,
        !(r.pending is Some && r.pending->0 is Find),
        !(key.mods.ctrl && key.one() is Some && chord(
            key.one()->0,
            (match counted(r.count) {
                Some(n) => n,
                None => 1,
            }) as int,
            page as int,
        ) is Some),
    ensures
        reads(r, key, anchored, searched, page).0 == Act::Nothing,
        reads(r, key, anchored, searched, page).1.pending is None,
{
}

/// `Esc` gives up one thing per press: the selection, then the search highlight, then the mode.
pub proof fn esc_gives_up_one_thing_per_press(r: Reader, key: KeyPress, page: u32)
    requires
        key.code is Esc,
        !key.mods.ctrl && !key.mods.alt,
        r.pending is None,
    ensures
        reads(r, key, true, true, page).0 == Act::DropSelection,
        reads(r, key, false, true, page).0 == Act::ClearSearch,
        reads(r, key, false, false, page).0 == Act::Leave,
{
}

/// A count is spent by the key after it: only another digit, or a key that waits for a second one,
/// leaves it standing.
pub proof fn a_count_is_spent_by_the_key_after_it(
    r: Reader,
    key: KeyPress,
    anchored: bool,
    searched: bool,
    page: u32,
)
    requires
        !is_count(key, r.count),
        !(r.pending is None && !key.mods.ctrl && !key.mods.alt && key.one() is Some && opener(
            key.one()->0,
            anchored,
        ) is Some),
    ensures
        reads(r, key, anchored, searched, page).1.count == 0,
{
}

} // verus!
