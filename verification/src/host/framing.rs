//! What stands around the composer, and what a conversation that has not begun shows.

use crate::host::composer::{
    attached_row, composer_chrome, first_line, more_queued, piece, placeholder, prompt, queued_room,
    queued_row, reading_heads, reading_keys, row_below, rows_above, shortcut_cost, shortened,
    with_shortcuts, Composer, Hint, Piece, Place, Shortcut,
};
use crate::host::lining::{is_in, lemma_is_in, lemma_still_in};
use crate::host::reading::{Pending, SelectShape};
use crate::host::screen::Line;
use crate::host::welcome::{
    key_gap, key_row, model_said, title_lines, welcome_keys, welcome_lines, with_key,
};
use crate::measure::columns_of;
use crate::text::{decimal, trim_of};
use crate::words::lines_of;
use vstd::prelude::*;

verus! {

/// Shortcuts are shown in order, each with its key before what it does, for as long as there is room,
/// and the first that there is no room for ends the row.
pub proof fn shortcuts_are_shown_while_there_is_room(
    row: Seq<Piece>,
    used: nat,
    first: Shortcut,
    rest: Seq<Shortcut>,
    width: nat,
    heads: nat,
)
    ensures
        ({
            let all = seq![first] + rest;
            let gap: nat = if row.len() > heads {
                2
            } else {
                0
            };
            let cost = gap + columns_of(first.keys) + 1 + columns_of(first.label);
            let r = with_shortcuts(row, used, all, width, heads);
            &&& row.is_prefix_of(r)
            &&& used + cost > width ==> r == row
            &&& used + cost <= width ==> {
                &&& r.len() >= row.len() + 2
                &&& exists|k: int|
                    {
                        &&& row.len() <= k < row.len() + 2 && k + 1 < r.len()
                        &&& (#[trigger] r[k]).text == first.keys
                        &&& r[k + 1].text == " "@ + first.label
                    }
            }
        }),
{
    let all = seq![first] + rest;
    let r = with_shortcuts(row, used, all, width, heads);
    lemma_prefix(row, used, all, width, heads);
    assert(all[0] == first);
    assert(all.skip(1) =~= rest);
    let gap = row.len() > heads;
    let cost = shortcut_cost(
        first,
        if gap {
            2
        } else {
            0
        },
    );
    if used + cost <= width {
        let more = row + crate::host::composer::shortcut_pieces(first, gap);
        lemma_prefix(more, used + cost, rest, width, heads);
        assert(more.is_prefix_of(r));
        let k = if gap {
            row.len() as int + 1
        } else {
            row.len() as int
        };
        assert(r[k] == more[k]);
        assert(r[k + 1] == more[k + 1]);
        assert(r[k].text == first.keys);
    }
}

proof fn lemma_prefix(row: Seq<Piece>, used: nat, all: Seq<Shortcut>, width: nat, heads: nat)
    ensures
        row.is_prefix_of(with_shortcuts(row, used, all, width, heads)),
    decreases all.len(),
{
    let r = with_shortcuts(row, used, all, width, heads);
    if all.len() > 0 {
        let gap = row.len() > heads;
        let cost = shortcut_cost(
            all[0],
            if gap {
                2
            } else {
                0
            },
        );
        if used + cost <= width {
            let more = row + crate::host::composer::shortcut_pieces(all[0], gap);
            lemma_prefix(more, used + cost, all.skip(1), width, heads);
            assert(r.subrange(0, row.len() as int) =~= more.subrange(0, row.len() as int));
            assert(more.subrange(0, row.len() as int) =~= row);
        }
    }
    if r == row {
        assert(r.subrange(0, row.len() as int) =~= row);
    }
}

/// What can be done while reading is told by what is pending, then by whether something is selected;
/// and on a card, first of all, how to open or fold it.
pub proof fn what_can_be_done_is_told(
    pending: Option<Pending>,
    anchored: bool,
    shape: SelectShape,
    card: Option<bool>,
    tab: Seq<char>,
)
    ensures
        ({
            let v = reading_keys(pending, anchored, shape, card, tab);
            let plain = pending is None && !anchored;
            &&& pending == Some(Pending::Yank) ==> v.len() == 6 && v[0] == ("y"@, "line"@) && v[1]
                == ("c"@, "code block"@) && v[2] == ("m"@, "this turn"@) && v[3] == (
                "a"@,
                "everything"@,
            ) && v[4] == ("i"@, "inside"@)
            &&& pending == Some(Pending::G) ==> v.len() == 3 && v[0] == ("g"@, "top"@) && v[2] == (
                "v"@,
                "reselect"@,
            )
            &&& pending == Some(Pending::Z) ==> v.len() == 4 && v[0] == ("z"@, "centre"@) && v[1]
                == ("t"@, "top"@) && v[2] == ("b"@, "bottom"@) && v[3] == ("a"@, "card"@)
            &&& pending is None && anchored ==> v.len() == 6 && v[0] == ("y"@, "copy"@) && v[5] == (
                "esc"@,
                "drop"@,
            ) && v[2] == (if shape == SelectShape::Line {
                ("v"@, "characters"@)
            } else {
                ("V"@, "whole lines"@)
            })
            &&& plain && card is None ==> v.len() == 7 && v[6] == ("esc"@, "leave"@)
            &&& plain && card is Some ==> v.len() == 8 && v[7] == ("esc"@, "leave"@) && v[0] == (
                tab,
                if card->0 {
                    "fold"@
                } else {
                    "expand"@
                },
            )
        }),
{
}

/// What is pending and what was counted stand before everything else, where there is any.
pub proof fn what_is_pending_and_counted_is_shown(waiting: bool, count: nat)
    ensures
        reading_heads(waiting, count).len() == (if waiting {
            1int
        } else {
            0
        }) + (if count > 0 {
            1int
        } else {
            0
        }),
        waiting ==> reading_heads(waiting, count)[0].text == "waiting\u{2026}  "@,
        count > 0 ==> reading_heads(waiting, count).last().text == decimal(count) + "  "@,
{
}

/// Each attached picture has a row of its own that says what it is; the first says that they are
/// attached, and the last how to take it off.
pub proof fn every_attached_picture_has_its_row(label: Seq<char>, i: int, n: int, ascii: bool)
    requires
        0 <= i < n,
    ensures
        ({
            let row = attached_row(label, i, n, ascii);
            &&& row.len() >= 3
            &&& row[2].text == label
            &&& i == 0 ==> row[1].text == "attached "@
            &&& i > 0 ==> row[1].text == "         "@
            &&& (row.len() > 3) == (i + 1 == n)
            &&& i + 1 == n ==> row.len() == 6 && row[5].text == " take off"@ && row[4].text == (
            if ascii {
                "Bksp"@
            } else {
                "\u{232b}"@
            })
        }),
{
}

/// Each queued message has a row of its own with its first line, as much of it as there is room for;
/// the last says how many more there are, and how to take one back.
pub proof fn every_queued_message_has_its_row(
    text: Seq<char>,
    i: int,
    take: int,
    more: nat,
    width: nat,
)
    requires
        0 <= i < take,
    ensures
        ({
            let row = queued_row(text, i, take, more, width);
            let last = i + 1 == take;
            &&& row.len() >= 3
            &&& i == 0 ==> row[1].text == "queued "@
            &&& i > 0 ==> row[1].text == "       "@
            &&& (row.len() > 3) == last
            &&& last ==> row.len() == 6 && row[4].text == "^Y"@ && row[5].text == " take back"@
            &&& !last && first_line(text).len() <= queued_room(width, seq![]) ==> row[2].text
                == first_line(text)
            &&& last && more == 0 && first_line(text).len() <= queued_room(width, seq![])
                ==> row[2].text == first_line(text)
            &&& last && more > 0 ==> is_in(row[2].text, "  (+"@ + decimal(more) + " more)"@)
        }),
{
    let row = queued_row(text, i, take, more, width);
    let none = Seq::<char>::empty();
    assert(first_line(text) + none =~= first_line(text));
    if i + 1 == take && more > 0 {
        let tail = more_queued(more);
        let head = shortened(first_line(text), queued_room(width, tail));
        assert(row[2].text =~= head + tail + none);
        lemma_is_in(head, tail, none);
    }
}

/// What does not fit is cut off at the end, and what fits is left alone.
pub proof fn what_does_not_fit_is_cut_off(s: Seq<char>, room: nat)
    ensures
        s.len() <= room ==> shortened(s, room) == s,
        s.len() > room ==> shortened(s, room).len() == room,
        shortened(s, room).is_prefix_of(s),
{
    assert(shortened(s, room).is_prefix_of(s));
}

/// The first line of a text, without the white space around it.
pub proof fn the_first_line_is_the_first(line: Seq<char>, rest: Seq<char>)
    requires
        forall|i: int| 0 <= i < line.len() ==> #[trigger] line[i] != '\n' && line[i] != '\r',
    ensures
        first_line(line + seq!['\n'] + rest) == trim_of(line),
        line.len() > 0 ==> first_line(line) == trim_of(line),
{
    crate::letters::a_line_is_what_stands_before_its_end(line, rest);
    let t = line + seq!['\n'] + rest;
    assert(lines_of(t)[0] == line);
}

/// Above the composer there is an empty row and a rule across the window, then a row for each picture
/// and one for each of the first three messages that are queued, in order.
pub proof fn everything_attached_and_queued_is_above(c: Composer, i: int)
    ensures
        ({
            let v = rows_above(c);
            let n = c.attached@.len() as int;
            let q = c.queued@.len() as int;
            let take: int = if q < 3 {
                q
            } else {
                3
            };
            &&& v.len() == 2 + n + take
            &&& 0 <= i < v.len() ==> v[i].place == Place::Above && v[i].row == 0
            &&& v[1].pieces.len() == 1 && v[1].pieces[0].text.len() == c.width
            &&& 0 <= i < n ==> v[2 + i].pieces == attached_row(c.attached@[i]@, i, n, c.ascii)
            &&& 0 <= i < take ==> v[2 + n + i].pieces == queued_row(
                c.queued@[i]@,
                i,
                take,
                (q - take) as nat,
                c.width as nat,
            )
        }),
{
}

/// The composer has its prompt and its placeholder unless something else has the field; the
/// placeholder is there only while nothing has been typed, and says what typing would do.
pub proof fn the_placeholder_is_there_while_nothing_is_typed(
    c: Composer,
    reading: Option<Seq<Piece>>,
    hints: Option<Seq<Piece>>,
)
    ensures
        ({
            let v = composer_chrome(c, reading, hints);
            let n = rows_above(c).len() as int;
            &&& c.borrowed ==> v == rows_above(c)
            &&& !c.borrowed ==> {
                &&& v.len() > n
                &&& v[n].place == Place::Inline && v[n].pieces[0].text == prompt(c.ascii)
                &&& c.empty ==> v.len() > n + 1 && v[n + 1].place == Place::Eol && v[n
                    + 1].pieces[0].text == placeholder(c.running)
                &&& !c.empty && v.len() > n + 1 ==> v[n + 1].place == Place::Below
                &&& (reading is Some || (hints is Some && c.lines <= 2)) == (v.last().place
                    == Place::Below)
                &&& rows_above(c).is_prefix_of(v)
            }
        }),
        placeholder(true) == "Steer it \u{2014} taken in at the next gap"@,
        placeholder(false) == "Ask anything, or run a command"@,
        prompt(true) == "> "@,
        prompt(false) == "\u{203a} "@,
{
    let v = composer_chrome(c, reading, hints);
    let a = rows_above(c);
    if !c.borrowed {
        assert(v.subrange(0, a.len() as int) =~= a);
        let b = row_below(c, reading, hints);
        assert(b.len() <= 1);
    }
}

/// What is below the composer is what can be done while reading, where the transcript is read, and
/// else the hints, where they are wanted and there is room.
pub proof fn what_is_below_is_for_where_you_are(
    c: Composer,
    reading: Option<Seq<Piece>>,
    hints: Option<Seq<Piece>>,
)
    ensures
        ({
            let v = row_below(c, reading, hints);
            let lead = seq![piece("  "@, "Composer.Hint")];
            &&& reading is Some ==> v.len() == 1 && v[0].pieces == lead + reading->0
            &&& reading is None && hints is Some && c.lines <= 2 ==> v.len() == 1 && v[0].pieces
                == lead + hints->0
            &&& reading is None && (hints is None || c.lines > 2) ==> v.len() == 0
            &&& v.len() == 1 && c.lines > 0 ==> v[0].row == c.lines - 1
        }),
{
}

// ---- before anything is said ------------------------------------------------

proof fn lemma_goes_on(a: Seq<char>, b: Seq<char>, c: Seq<char>)
    requires
        a.is_prefix_of(b),
        b.is_prefix_of(c),
    ensures
        a.is_prefix_of(c),
        c == b + c.skip(b.len() as int),
{
    assert(c.subrange(0, a.len() as int) =~= b.subrange(0, a.len() as int));
    assert(c.subrange(0, b.len() as int) == b);
    assert(c =~= b + c.skip(b.len() as int));
}

proof fn lemma_with_key(l: Line, i: int, key: Seq<char>, label: Seq<char>)
    ensures
        l.text.is_prefix_of(with_key(l, i, key, label).text),
        is_in(with_key(l, i, key, label).text, key + " "@ + label),
{
    let t = with_key(l, i, key, label).text;
    let said = key + " "@ + label;
    let none = Seq::<char>::empty();
    assert(t =~= (l.text + key_gap(i)) + said + none);
    lemma_is_in(l.text + key_gap(i), said, none);
    assert(t.subrange(0, l.text.len() as int) =~= l.text);
}

proof fn lemma_key_row(l: Line, keys: Seq<(Seq<char>, Seq<char>)>, i: int, width: nat)
    requires
        0 <= i <= keys.len(),
    ensures
        l.text.is_prefix_of(key_row(l, keys, i, width).text),
    decreases keys.len() - i,
{
    let r = key_row(l, keys, i, width);
    if i < keys.len() {
        let (key, label) = keys[i];
        let next = with_key(l, i, key, label);
        lemma_key_row(next, keys, i + 1, width);
        lemma_with_key(l, i, key, label);
        let on = key_row(next, keys, i + 1, width);
        lemma_goes_on(l.text, next.text, on.text);
        assert(r == l || r == on);
    }
    assert(l.text.subrange(0, l.text.len() as int) =~= l.text);
}

/// A key row goes on from what stands on it, with each key and what it does for as long as there is
/// room; the first is always there.
pub proof fn a_key_row_shows_its_first_key(
    l: Line,
    keys: Seq<(Seq<char>, Seq<char>)>,
    width: nat,
)
    requires
        keys.len() > 0,
    ensures
        l.text.is_prefix_of(key_row(l, keys, 0, width).text),
        is_in(key_row(l, keys, 0, width).text, keys[0].0 + " "@ + keys[0].1),
{
    let (key, label) = keys[0];
    let next = with_key(l, 0, key, label);
    let on = key_row(next, keys, 1, width);
    assert(key_row(l, keys, 0, width) == on);
    lemma_with_key(l, 0, key, label);
    lemma_key_row(next, keys, 1, width);
    lemma_goes_on(l.text, next.text, on.text);
    lemma_still_in(next.text, on.text.skip(next.text.len() as int), key + " "@ + label);
}

/// A conversation that has not begun shows which model it would use and where, that there is none
/// where there is none, that the model cannot be used where it cannot, and what can be pressed.
pub proof fn a_new_conversation_shows_what_it_would_use(
    ascii: bool,
    width: nat,
    model: Seq<char>,
    directory: Seq<char>,
    empty: bool,
    unusable: bool,
)
    ensures
        ({
            let v = welcome_lines(ascii, width, model, directory, empty, unusable);
            let t = title_lines(ascii, width).len() as int;
            let more: int = if empty {
                2
            } else {
                0
            };
            &&& v.len() == 7 + t + more + (if unusable {
                2int
            } else {
                0
            })
            &&& v[t + 2].text == "  model      "@ + model
            &&& v[t + 3].text == "  directory  "@ + directory
            &&& empty ==> v[t + 5].text
                == "  Nothing open. What you type here starts a conversation."@
            &&& unusable ==> v[t + 5 + more].text
                == "  This model cannot authenticate yet. Press ^P to pick another, or add a key there."@
            &&& v.last().text.len() == 0
            &&& v[v.len() - 2] == key_row(
                Line { text: "  "@, spans: seq![], band: None },
                welcome_keys(ascii, empty),
                0,
                width,
            )
        }),
{
}

/// The keys that are shown are those of a conversation, or of a workspace with none.
pub proof fn the_keys_shown_are_those_that_work(ascii: bool, empty: bool)
    ensures
        ({
            let v = welcome_keys(ascii, empty);
            let enter = if ascii {
                "Enter"@
            } else {
                "\u{23ce}"@
            };
            &&& v.len() == 5
            &&& v[0] == (
                enter,
                if empty {
                    "start"@
                } else {
                    "send"@
                },
            )
            &&& v[4] == ("^Z"@, "every key"@)
            &&& empty ==> v[1] == ("^O"@, "add project"@) && v[3] == ("^F"@, "archived"@) && v[2]
                == ("^T"@, "projects"@)
            &&& !empty ==> v[1] == ("^S"@, "browse & copy"@) && v[2] == ("^P"@, "model"@) && v[3]
                == ("^T"@, "projects"@)
        }),
{
}

/// A model is said with where it is served, and with whose account it is where that is known.
pub proof fn a_model_is_said_with_its_instance(
    instance: Seq<char>,
    model: Seq<char>,
    account: Seq<char>,
)
    ensures
        model_said(Some((instance, model)), None) == instance + "/"@ + model,
        model_said(Some((instance, model)), Some(account)) == instance + "/"@ + model
            + "  \u{b7}  "@ + account,
        model_said(None, None) == "nothing configured \u{2014} run `neosh --list-models`"@,
        model_said(None, Some(account)) == model_said(None, None),
{
}

} // verus!
