//! What each key is for, while the transcript is read and while something is written.

use crate::host::keys::{unbound_does, Composing, CursorMotion, Edit, KeyPress, Mode, Unbound};
use crate::host::reading::{
    object_named, reads, Act, Motion, Object, Pending, Reader, SelectShape,
};
use vstd::prelude::*;

verus! {

/// A key that types one character and nothing is held down with it but perhaps shift.
pub open spec fn types(key: KeyPress, c: char) -> bool {
    key.code is Char && key.typed() == seq![c] && !key.mods.ctrl && !key.mods.alt
}

/// A key that types one character with control held down.
pub open spec fn chords(key: KeyPress, c: char) -> bool {
    key.code is Char && key.typed() == seq![c] && key.mods.ctrl
}

/// How often: as often as was counted, or once.
pub open spec fn times(r: Reader) -> int {
    if r.count > 0 {
        r.count as int
    } else {
        1
    }
}

/// Each motion of reading is one key's, made as often as was counted, and starts a selection where
/// shift is held down and there is none yet.
pub proof fn each_motion_has_its_key(
    r: Reader,
    key: KeyPress,
    c: char,
    anchored: bool,
    searched: bool,
    page: u32,
)
    requires
        r.pending is None,
        types(key, c),
        !('1' <= c <= '9'),
        !(c == '0' && r.count > 0),
    ensures
        ({
            let act = reads(r, key, anchored, searched, page).0;
            match act {
                Act::Go(m, n, selecting) => {
                    &&& (m == Motion::Left) == (c == 'h')
                    &&& (m == Motion::Right) == (c == 'l' || c == ' ')
                    &&& (m == Motion::Down) == (c == 'j')
                    &&& (m == Motion::Up) == (c == 'k')
                    &&& (m == Motion::WordRight(false)) == (c == 'w')
                    &&& (m == Motion::WordRight(true)) == (c == 'W')
                    &&& (m == Motion::WordLeft(false)) == (c == 'b')
                    &&& (m == Motion::WordLeft(true)) == (c == 'B')
                    &&& (m == Motion::WordEnd(false)) == (c == 'e')
                    &&& (m == Motion::WordEnd(true)) == (c == 'E')
                    &&& (m == Motion::LineStart) == (c == '0')
                    &&& (m == Motion::FirstNonBlank) == (c == '^')
                    &&& (m == Motion::LineEnd) == (c == '$')
                    &&& (m == Motion::MatchPair) == (c == '%')
                    &&& (m == Motion::BufEnd) == (c == 'G' && r.count == 0)
                    &&& (m is Row) == (c == 'G' && r.count > 0)
                    &&& (m is Find) == (c == ';' || c == ',')
                    &&& m is Row ==> m->Row_0 + 1 == r.count && n == 1
                    &&& !(m is Row) ==> n == times(r) && selecting == (key.mods.shift && !anchored)
                    &&& m is Find ==> r.sought is Some && match (m, r.sought->0) {
                        (Motion::Find(ch, till, back), (was, stopped, looked_back)) => {
                            &&& ch == was && till == stopped
                            &&& (back == looked_back) == (c == ';')
                        },
                        _ => false,
                    }
                },
                _ => {
                    &&& c != 'h' && c != 'l' && c != ' ' && c != 'j' && c != 'k'
                    &&& c != 'w' && c != 'W' && c != 'b' && c != 'B' && c != 'e' && c != 'E'
                    &&& c != '0' && c != '^' && c != '$' && c != '%' && c != 'G'
                    &&& (c == ';' || c == ',') ==> r.sought is None
                },
            }
        }),
{
    assert(key.one() == Some(c));
    assert(key.first() == Some(c));
}

/// Each thing that reading does otherwise is one key's too.
pub proof fn each_act_of_reading_has_its_key(
    r: Reader,
    key: KeyPress,
    c: char,
    anchored: bool,
    searched: bool,
    page: u32,
)
    requires
        r.pending is None,
        r.count < 1000,
        types(key, c),
        !('0' <= c <= '9'),
    ensures
        ({
            let (act, next) = reads(r, key, anchored, searched, page);
            &&& (act == Act::ToTurn(true)) == (c == ']')
            &&& (act == Act::ToTurn(false)) == (c == '[')
            &&& (act == Act::ToBlock(true)) == (c == '}')
            &&& (act == Act::ToBlock(false)) == (c == '{')
            &&& (act is ScreenRow) == (c == 'H' || c == 'M' || c == 'L')
            &&& (c == 'H') ==> act->ScreenRow_0 + 1 == times(r)
            &&& (c == 'M') ==> act->ScreenRow_0 <= page - act->ScreenRow_0 <= act->ScreenRow_0 + 1
            &&& (c == 'L') ==> act->ScreenRow_0 == (if page > times(r) {
                page - times(r)
            } else {
                0
            })
            &&& (act == Act::Select(SelectShape::Inclusive)) == (c == 'v')
            &&& (act == Act::Select(SelectShape::Line)) == (c == 'V')
            &&& (act == Act::SwapEnds) == (c == 'o' && anchored)
            &&& (act == Act::Search(false)) == (c == '/')
            &&& (act == Act::Search(true)) == (c == '?')
            &&& (act == Act::SearchStep(true)) == (c == 'n')
            &&& (act == Act::SearchStep(false)) == (c == 'N')
            &&& (act == Act::SearchWord(true)) == (c == '*')
            &&& (act == Act::SearchWord(false)) == (c == '#')
            &&& (act == Act::Copy) == (c == 'y' && anchored)
            &&& (act == Act::YankLine) == (c == 'Y')
            &&& (act == Act::Leave) == (c == 'q' || (!anchored && (c == 'i' || c == 'a' || c
                == 'o')))
            &&& (next.pending == Some(Pending::G)) == (c == 'g')
            &&& (next.pending == Some(Pending::Z)) == (c == 'z')
            &&& (next.pending == Some(Pending::Yank)) == (c == 'y' && !anchored)
            &&& (next.pending == Some(Pending::Find(false, false))) == (c == 'f')
            &&& (next.pending == Some(Pending::Find(false, true))) == (c == 'F')
            &&& (next.pending == Some(Pending::Find(true, false))) == (c == 't')
            &&& (next.pending == Some(Pending::Find(true, true))) == (c == 'T')
            &&& (next.pending == Some(Pending::Object(false, false))) == (c == 'i' && anchored)
            &&& (next.pending == Some(Pending::Object(true, false))) == (c == 'a' && anchored)
            &&& (next.pending is Some) ==> act == Act::Refresh && next.count == r.count
            &&& (next.pending is None) ==> next.count == 0
            &&& next.sought == r.sought
        }),
{
    assert(key.one() == Some(c));
    assert(key.first() == Some(c));
}

/// The keys that type nothing: arrows and the ends of a line move, a page is a page, and the rest
/// fold a card or leave.
pub proof fn each_named_key_of_reading_does_its_own(
    r: Reader,
    key: KeyPress,
    anchored: bool,
    searched: bool,
    page: u32,
)
    requires
        r.pending is None,
        r.count < 1000,
        !(key.code is Char),
        !key.mods.ctrl && !key.mods.alt,
        page < 1_000_000,
    ensures
        ({
            let (act, next) = reads(r, key, anchored, searched, page);
            let moves = |m: Motion| act is Go && act->Go_0 == m;
            &&& next.count == 0 && next.pending is None
            &&& moves(Motion::Left) == (key.code is Left)
            &&& moves(Motion::Right) == (key.code is Right)
            &&& moves(Motion::Up) == (key.code is Up)
            &&& moves(Motion::Down) == (key.code is Down)
            &&& moves(Motion::LineStart) == (key.code is Home)
            &&& moves(Motion::LineEnd) == (key.code is End)
            &&& act is Go ==> act->Go_1 == times(r) && act->Go_2 == (key.mods.shift && !anchored)
            &&& (act is By) == (key.code is PageDown || key.code is PageUp)
            &&& key.code is PageDown ==> act->By_0 == times(r) * page
            &&& key.code is PageUp ==> act->By_0 == -(times(r) * page)
            &&& (act is ToggleCard) == (key.code is Tab)
            &&& (act is DropSelection) == (key.code is Esc && anchored)
            &&& (act is ClearSearch) == (key.code is Esc && !anchored && searched)
            &&& (act is Leave) == (key.code is Enter || (key.code is Esc && !anchored && !searched))
        }),
{
    assert(key.typed() =~= seq![]);
    assert(key.one() is None && key.first() is None);
    let n = times(r);
    assert(0 <= n * page <= 1000 * 1_000_000) by (nonlinear_arith)
        requires
            0 <= n <= 1000,
            0 <= page < 1_000_000,
    ;
}

/// With control held down, half a page or a whole one is moved by, down or up by the same, and the
/// window alone moves by rows.
pub proof fn a_chord_moves_as_far_back_as_on(
    r: Reader,
    key: KeyPress,
    c: char,
    anchored: bool,
    searched: bool,
    page: u32,
)
    requires
        !(r.pending is Some && r.pending->0 is Find),
        r.count < 1000,
        chords(key, c),
        page < 1_000_000,
    ensures
        ({
            let (act, next) = reads(r, key, anchored, searched, page);
            let n = times(r);
            &&& next.count == 0 && next.pending is None && next.sought == r.sought
            &&& (act is By) == (c == 'd' || c == 'u' || c == 'f' || c == 'b')
            &&& (act is Scroll) == (c == 'e' || c == 'y')
            &&& (act is NoBlocks) == (c == 'v')
            &&& c == 'f' ==> act->By_0 == n * page
            &&& c == 'b' ==> act->By_0 == -(n * page)
            &&& c == 'd' ==> 2 * act->By_0 <= n * (page + 1) <= 2 * act->By_0 + 1
            &&& c == 'u' ==> -2 * act->By_0 <= n * (page + 1) <= -2 * act->By_0 + 1
            &&& c == 'e' ==> act->Scroll_0 == n
            &&& c == 'y' ==> act->Scroll_0 == -n
            &&& act is By || act is Scroll || act is NoBlocks || act is Nothing
        }),
{
    assert(key.one() == Some(c));
    assert(key.first() == Some(c));
    let n = times(r);
    assert(0 <= n * page <= 1000 * 1_000_000) by (nonlinear_arith)
        requires
            0 <= n <= 1000,
            0 <= page < 1_000_000,
    ;
    assert(0 <= n * (page + 1) <= 1000 * 1_000_000) by (nonlinear_arith)
        requires
            0 <= n <= 1000,
            0 <= page < 1_000_000,
    ;
}

/// What follows `g`: the first line, or the line that was counted to, and the motions that have no
/// key of their own.
pub proof fn what_follows_g(
    r: Reader,
    key: KeyPress,
    c: char,
    anchored: bool,
    searched: bool,
    page: u32,
)
    requires
        r.pending == Some(Pending::G),
        types(key, c),
        !('0' <= c <= '9'),
    ensures
        ({
            let (act, next) = reads(r, key, anchored, searched, page);
            let moves = |m: Motion| act == Act::Go(m, times(r) as u32, false);
            &&& next.pending is None && next.count == 0
            &&& (act is Go && act->Go_0 == Motion::BufStart) == (c == 'g' && r.count == 0)
            &&& (act is Go && act->Go_0 is Row) == (c == 'g' && r.count > 0)
            &&& c == 'g' && r.count > 0 ==> act->Go_0->Row_0 + 1 == r.count
            &&& moves(Motion::WordEndBack(false)) == (c == 'e')
            &&& moves(Motion::WordEndBack(true)) == (c == 'E')
            &&& moves(Motion::LastNonBlank) == (c == '_')
            &&& (act is Reselect) == (c == 'v')
            &&& (act is Nothing) == (c != 'g' && c != 'e' && c != 'E' && c != '_' && c != 'v')
        }),
{
    assert(key.one() == Some(c));
    assert(key.first() == Some(c));
}

/// What follows `z`: the cursor's line goes to the middle of the window, its top or its bottom, or
/// the card under it opens.
pub proof fn what_follows_z(
    r: Reader,
    key: KeyPress,
    c: char,
    anchored: bool,
    searched: bool,
    page: u32,
)
    requires
        r.pending == Some(Pending::Z),
        types(key, c),
        !('0' <= c <= '9'),
    ensures
        ({
            let (act, next) = reads(r, key, anchored, searched, page);
            &&& next.pending is None && next.count == 0
            &&& (act is PlaceLine) == (c == 'z' || c == '.' || c == 't' || c == 'b' || c == '-')
            &&& c == 'z' || c == '.' ==> act->PlaceLine_0 <= page - act->PlaceLine_0
                <= act->PlaceLine_0 + 1
            &&& c == 't' ==> act->PlaceLine_0 == 0
            &&& c == 'b' || c == '-' ==> act->PlaceLine_0 == (if page == 0 {
                0
            } else {
                page - 1
            })
            &&& (act is ToggleCard) == (c == 'a')
            &&& (act is Nothing) == !(act is PlaceLine || act is ToggleCard)
        }),
{
    assert(key.one() == Some(c));
    assert(key.first() == Some(c));
}

/// What follows `y`: a line, some code, a turn, everything, an object still to be named, or whatever
/// a motion covers; anything else is told what can follow.
pub proof fn what_follows_y(
    r: Reader,
    key: KeyPress,
    c: char,
    anchored: bool,
    searched: bool,
    page: u32,
)
    requires
        r.pending == Some(Pending::Yank),
        types(key, c),
        !('1' <= c <= '9'),
        !(c == '0' && r.count > 0),
    ensures
        ({
            let (act, next) = reads(r, key, anchored, searched, page);
            let covers = |m: Motion| act == Act::YankOver(m, times(r) as u32);
            &&& next.count == 0
            &&& (next.pending == Some(Pending::Object(false, true))) == (c == 'i')
            &&& (next.pending is Some) == (c == 'i')
            &&& (act is YankLine) == (c == 'y')
            &&& (act is YankCode) == (c == 'c')
            &&& (act is YankTurn) == (c == 'm' || c == 't')
            &&& (act is YankAll) == (c == 'a')
            &&& (act is Refresh) == (c == 'i')
            &&& covers(Motion::WordRight(false)) == (c == 'w')
            &&& covers(Motion::WordRight(true)) == (c == 'W')
            &&& covers(Motion::WordLeft(false)) == (c == 'b')
            &&& covers(Motion::WordLeft(true)) == (c == 'B')
            &&& covers(Motion::WordEnd(false)) == (c == 'e')
            &&& covers(Motion::WordEnd(true)) == (c == 'E')
            &&& covers(Motion::Left) == (c == 'h')
            &&& covers(Motion::Right) == (c == 'l' || c == ' ')
            &&& covers(Motion::Down) == (c == 'j')
            &&& covers(Motion::Up) == (c == 'k')
            &&& covers(Motion::LineStart) == (c == '0')
            &&& covers(Motion::FirstNonBlank) == (c == '^')
            &&& covers(Motion::LineEnd) == (c == '$')
            &&& covers(Motion::BufEnd) == (c == 'G')
            &&& covers(Motion::MatchPair) == (c == '%')
            &&& (act is YankOver && act->YankOver_0 is Find) == (c == ';' && r.sought is Some)
            &&& c == ';' && r.sought is Some ==> match r.sought->0 {
                (ch, till, back) => covers(Motion::Find(ch, till, back)),
            }
            &&& c == ';' && r.sought is None ==> act is YankHelp
        }),
{
    assert(key.one() == Some(c));
    assert(key.first() == Some(c));
}

/// The character after a find is what is looked for, whatever key it is and whatever is held down,
/// as often as was counted; it is remembered for the next time.
pub proof fn a_find_looks_for_what_is_typed(
    r: Reader,
    key: KeyPress,
    till: bool,
    back: bool,
    anchored: bool,
    searched: bool,
    page: u32,
)
    requires
        r.pending == Some(Pending::Find(till, back)),
    ensures
        ({
            let (act, next) = reads(r, key, anchored, searched, page);
            &&& next.pending is None && next.count == 0
            &&& key.typed().len() > 0 ==> {
                &&& act == Act::Go(Motion::Find(key.typed()[0], till, back), times(r) as u32, false)
                &&& next.sought == Some((key.typed()[0], till, back))
            }
            &&& key.typed().len() == 0 ==> act is Refresh && next.sought == r.sought
        }),
{
}

/// A digit is one more of the count, up to three of them; a nought before any other is no count.
pub proof fn digits_count(
    r: Reader,
    key: KeyPress,
    c: char,
    anchored: bool,
    searched: bool,
    page: u32,
)
    requires
        r.wf(),
        !(r.pending is Some && r.pending->0 is Find),
        types(key, c),
        '0' <= c <= '9',
        c != '0' || r.count > 0,
    ensures
        ({
            let (act, next) = reads(r, key, anchored, searched, page);
            &&& act is Refresh
            &&& next.pending == r.pending && next.sought == r.sought
            &&& r.count < 100 ==> next.count == 10 * r.count + (c as int - '0' as int)
            &&& r.count >= 100 ==> next.count == r.count
        }),
{
    assert(key.first() == Some(c));
}

/// Which object each character names: words, paragraphs, what is between quotes, and what is between
/// a pair of brackets, either of which names the pair.
pub proof fn each_object_has_its_character(c: char)
    ensures
        (object_named(c) == Some(Object::Word(false))) == (c == 'w'),
        (object_named(c) == Some(Object::Word(true))) == (c == 'W'),
        (object_named(c) == Some(Object::Paragraph)) == (c == 'p'),
        (object_named(c) == Some(Object::Quote('"'))) == (c == '"'),
        (object_named(c) == Some(Object::Quote('\''))) == (c == '\''),
        (object_named(c) == Some(Object::Quote('`'))) == (c == '`'),
        (object_named(c) == Some(Object::Pair('(', ')'))) == (c == '(' || c == ')' || c == 'b'),
        (object_named(c) == Some(Object::Pair('[', ']'))) == (c == '[' || c == ']'),
        (object_named(c) == Some(Object::Pair('{', '}'))) == (c == '{' || c == '}' || c == 'B'),
        (object_named(c) == Some(Object::Pair('<', '>'))) == (c == '<' || c == '>'),
        match object_named(c) {
            Some(Object::Quote(q)) => q == c,
            Some(Object::Pair(a, b)) => (a == '(' && b == ')') || (a == '[' && b == ']') || (a
                == '{' && b == '}') || (a == '<' && b == '>'),
            _ => true,
        },
{
}

/// What follows `i` or `a` is the object named, taken the way that was asked for.
pub proof fn what_follows_i_or_a(
    r: Reader,
    key: KeyPress,
    c: char,
    around: bool,
    yank: bool,
    anchored: bool,
    searched: bool,
    page: u32,
)
    requires
        r.pending == Some(Pending::Object(around, yank)),
        types(key, c),
        !('0' <= c <= '9'),
    ensures
        ({
            let (act, next) = reads(r, key, anchored, searched, page);
            &&& next.pending is None && next.count == 0
            &&& match object_named(c) {
                Some(o) => act == Act::Take(o, around, yank),
                None => act is Nothing,
            }
        }),
{
    assert(key.one() == Some(c));
    assert(key.first() == Some(c));
}

/// Each thing that a key does to the composer comes of its own keys, and of no others: what is
/// typed is inserted, what deletes deletes on the side its key is for, and by a word where control
/// or alt is held down.
pub proof fn each_key_of_the_composer_does_its_own(key: KeyPress, c: Composing)
    ensures
        ({
            let r = unbound_does(key, Mode::Chat, c);
            let m = key.mods;
            let wide = m.ctrl || m.alt;
            let letter = |ch: char| key.code is Char && m.ctrl && key.typed() == seq![ch];
            let moves = |to: CursorMotion| r is Move && r->Move_0 == to;
            &&& (r is Interrupt) == (key.code is Esc)
            &&& (r is Newline) == (key.code is Enter && (m.shift || m.alt))
            &&& (r is Send) == (key.code is Enter && !m.shift && !m.alt && !c.blank)
            &&& (r is DropAttachment) == (key.code is Backspace && c.empty && c.attached)
            &&& (r == Unbound::Edit(Edit::DeleteBack)) == (key.code is Backspace && !(c.empty
                && c.attached) && !wide)
            &&& (r == Unbound::Edit(Edit::DeleteWordBack)) == ((key.code is Backspace && !(c.empty
                && c.attached) && wide) || letter('w'))
            &&& (r == Unbound::Edit(Edit::DeleteForward)) == (key.code is Delete && !wide)
            &&& (r == Unbound::Edit(Edit::DeleteWordForward)) == (key.code is Delete && wide)
            &&& (r == Unbound::Edit(Edit::DeleteToLineStart)) == letter('u')
            &&& moves(CursorMotion::Left) == (key.code is Left && !wide)
            &&& moves(CursorMotion::WordLeft) == (key.code is Left && wide)
            &&& moves(CursorMotion::Right) == (key.code is Right && !wide)
            &&& moves(CursorMotion::WordRight) == (key.code is Right && wide)
            &&& moves(CursorMotion::Up) == (key.code is Up && (!c.first_line || m.shift))
            &&& moves(CursorMotion::Down) == (key.code is Down && (!c.last_line || m.shift))
            &&& (r is ScrollUp) == (key.code is Up && c.first_line && !m.shift)
            &&& (r is ScrollDown) == (key.code is Down && c.last_line && !m.shift)
            &&& moves(CursorMotion::BufStart) == (key.code is Home && m.ctrl)
            &&& moves(CursorMotion::BufEnd) == (key.code is End && m.ctrl)
            &&& moves(CursorMotion::LineEnd) == (key.code is End && !m.ctrl)
            &&& moves(CursorMotion::LineStart) == ((key.code is Home && !m.ctrl) || letter('a'))
            &&& (r is Insert) == (key.code is Char && !m.ctrl && !m.alt)
            &&& r is Move && !(key.code is Char) ==> r->Move_1 == m.shift
        }),
{
    let a = seq!['a'];
    let u = seq!['u'];
    let w = seq!['w'];
    assert(a[0] == 'a' && u[0] == 'u' && w[0] == 'w');
}

/// Outside the chat a key that nothing claimed does nothing, but for the one that interrupts.
pub proof fn only_esc_works_everywhere(key: KeyPress, mode: Mode, c: Composing)
    ensures
        (unbound_does(key, mode, c) is Interrupt) == (key.code is Esc),
        mode != Mode::Chat && !(key.code is Esc) ==> unbound_does(key, mode, c) is Nothing,
{
}

} // verus!
