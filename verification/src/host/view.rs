//! Where the transcript is scrolled to, and where the cursor goes in it.

use crate::host::reading::{Motion, SelectShape};
use crate::host::walking::{
    a_turn_is_where_the_bar_begins, the_next_is_the_nearest_below,
    the_one_before_is_the_nearest_above,
};
use crate::notify::MessageLevel;
use crate::text::{begins, chars_of, is_blank, starts_with, texts};
use crate::words::{join_with, joined_with, past, strip_lead};
use vstd::prelude::*;

verus! {

/// Which way to page. Stopping is going back to following the newest.
#[derive(Debug, Clone, Copy, PartialEq, Eq, Structural)]
pub enum Scroll {
    Up,
    Down,
    Follow,
}

pub open spec fn minus(a: int, b: int) -> int {
    if a >= b {
        a - b
    } else {
        0
    }
}

/// Where paging the transcript puts it. Following the newest is `None`, which is a different place
/// from row zero; past the end means back to following, so nobody can scroll into blank space.
pub open spec fn scrolled(way: Scroll, top: Option<u32>, lines: u32, page: u32) -> Option<int> {
    match way {
        Scroll::Follow => None,
        Scroll::Up => {
            let from = match top {
                Some(t) => t as int,
                None => minus(lines as int, page as int),
            };
            Some(minus(from, page as int))
        },
        Scroll::Down => match top {
            None => None,
            Some(t) => if t + 2 * page >= lines {
                None
            } else {
                Some(t + page)
            },
        },
    }
}

/// Page the transcript.
pub fn scroll_chat(way: Scroll, top: Option<u32>, lines: u32, height: Option<u32>) -> (r: Option<
    u32,
>)
    ensures
        ({
            let page = match height {
                Some(h) => if h > 0 {
                    h
                } else {
                    1
                },
                None => 10,
            };
            match r {
                Some(t) => scrolled(way, top, lines, page) == Some(t as int),
                None => scrolled(way, top, lines, page) is None,
            }
        }),
{
    let page: u32 = match height {
        Some(h) => if h > 0 {
            h
        } else {
            1
        },
        None => 10,
    };
    match way {
        Scroll::Follow => None,
        Scroll::Up => {
            // From "following", scrolling up starts from where the tail actually begins.
            let from = match top {
                Some(t) => t,
                None => lines.saturating_sub(page),
            };
            Some(from.saturating_sub(page))
        },
        Scroll::Down => match top {
            None => None,
            Some(t) => {
                let next: u64 = t as u64 + page as u64;
                if next + page as u64 >= lines as u64 {
                    None
                } else {
                    Some(next as u32)
                }
            },
        },
    }
}

/// How many buffer rows are on the screen: what was measured, and the height where nothing was.
pub open spec fn rows_on_screen(rows: u32, height: u32) -> u32 {
    if rows > 0 {
        rows
    } else if height > 0 {
        height
    } else {
        1
    }
}

/// Where the window has to move for the cursor to be on screen. Nowhere, where it is already.
pub open spec fn followed(row: int, showing: int, rows: int) -> Option<int> {
    if row < showing {
        Some(row)
    } else if row >= showing + rows {
        Some(row + 1 - rows)
    } else {
        None
    }
}

/// Keep the cursor on screen while reading.
pub fn follow_cursor(row: u32, top: Option<u32>, lines: u32, rows: u32, height: u32) -> (r: Option<
    u32,
>)
    ensures
        ({
            let n = rows_on_screen(rows, height) as int;
            let showing = match top {
                Some(t) => t as int,
                None => minus(lines as int, n),
            };
            match r {
                Some(t) => followed(row as int, showing, n) == Some(t as int),
                None => followed(row as int, showing, n) is None,
            }
        }),
{
    let n: u32 = if rows > 0 {
        rows
    } else if height > 0 {
        height
    } else {
        1
    };
    let showing: u32 = match top {
        Some(t) => t,
        None => lines.saturating_sub(n),
    };
    if row < showing {
        Some(row)
    } else if row as u64 >= showing as u64 + n as u64 {
        Some(row - (n - 1))
    } else {
        None
    }
}

/// Wherever the window moves to, the cursor is on screen afterwards, and it does not move when the
/// cursor already was.
pub proof fn the_cursor_ends_up_on_screen(row: int, showing: int, rows: int)
    requires
        rows > 0,
        showing >= 0,
        row >= 0,
    ensures
        match followed(row, showing, rows) {
            Some(top) => 0 <= top <= row < top + rows,
            None => showing <= row < showing + rows,
        },
        followed(
            row,
            match followed(row, showing, rows) {
                Some(top) => top,
                None => showing,
            },
            rows,
        ) is None,
{
}

pub open spec fn clamped(x: int, lo: int, hi: int) -> int {
    if x < lo {
        lo
    } else if x > hi {
        hi
    } else {
        x
    }
}

pub open spec fn smaller(a: int, b: int) -> int {
    if a < b {
        a
    } else {
        b
    }
}

/// The row a line's last is.
pub open spec fn last_row(lines: int) -> int {
    minus(lines, 1)
}

/// `^E` and `^Y`: the first row on screen once the window has moved, and the row the cursor is taken
/// along to, which is where it was unless it would fall off.
pub open spec fn window_moved(
    delta: int,
    showing: int,
    lines: int,
    page: int,
    row: int,
) -> (int, int) {
    let last = last_row(lines);
    let next = clamped(showing + delta, 0, last);
    let low = smaller(next + page - 1, last);
    (
        next,
        clamped(
            row,
            next,
            if low < next {
                next
            } else {
                low
            },
        ),
    )
}

/// `^E` and `^Y`: move the *window*, and take the cursor along only if it would fall off.
pub fn reading_scroll(delta: i64, showing: u32, lines: u32, page: u32, row: u32) -> (r: (u32, u32))
    requires
        page > 0,
    ensures
        (r.0 as int, r.1 as int) == window_moved(
            delta as int,
            showing as int,
            lines as int,
            page as int,
            row as int,
        ),
{
    let last: i64 = lines.saturating_sub(1) as i64;
    let top: i64 = showing as i64;
    // As far as can be counted: past the end is past the end.
    let wanted: i64 = if delta > i64::MAX - top {
        i64::MAX
    } else {
        top + delta
    };
    let next: i64 = if wanted < 0 {
        0
    } else if wanted > last {
        last
    } else {
        wanted
    };
    let reach: i64 = next + page as i64 - 1;
    let bottom: i64 = if reach < last {
        reach
    } else {
        last
    };
    let low: i64 = if bottom < next {
        next
    } else {
        bottom
    };
    let at: i64 = row as i64;
    let want: i64 = if at < next {
        next
    } else if at > low {
        low
    } else {
        at
    };
    (next as u32, want as u32)
}

/// `H`, `M` and `L`: a row counted from the top of the *window* rather than of the transcript.
pub fn reading_screen_row(offset: u32, showing: u32, lines: u32, page: u32) -> (r: u32)
    requires
        page > 0,
    ensures
        r == smaller(
            showing + smaller(offset as int, page - 1),
            last_row(lines as int),
        ),
{
    let down: u32 = if offset < page - 1 {
        offset
    } else {
        page - 1
    };
    let row: u64 = showing as u64 + down as u64;
    let last: u32 = lines.saturating_sub(1);
    if row < last as u64 {
        row as u32
    } else {
        last
    }
}

// ---- turns and blocks -------------------------------------------------------

/// Whether a turn begins on row `i`: the first line of a question, marked by the bar down its left.
pub open spec fn turn_begins(lines: Seq<Seq<char>>, bar: Seq<char>, i: int) -> bool {
    begins(lines[i], bar) && !(i > 0 && begins(lines[i - 1], bar))
}

/// The rows where a turn begins.
pub open spec fn turns_in(lines: Seq<Seq<char>>, bar: Seq<char>, n: int) -> Seq<int>
    decreases n,
{
    if n <= 0 {
        seq![]
    } else {
        let above = turns_in(lines, bar, n - 1);
        if turn_begins(lines, bar, n - 1) {
            above.push(n - 1)
        } else {
            above
        }
    }
}

/// Row numbers as plain numbers.
pub open spec fn rows_as(v: Seq<usize>) -> Seq<int> {
    v.map_values(|r: usize| r as int)
}

/// Rows where a turn begins. Read off the transcript rather than remembered alongside it: a
/// remembered list would be wrong in exactly the cases where somebody is scrolling back through a
/// long conversation looking for something.
pub fn turn_rows(lines: &Vec<String>, bar: &str) -> (r: Vec<usize>)
    ensures
        rows_as(r@) == turns_in(texts(lines@), bar@, lines@.len() as int),
{
    let ghost ls = texts(lines@);
    let b = chars_of(bar);
    let mut r: Vec<usize> = Vec::new();
    let mut inside = false;
    let mut i: usize = 0;
    assert(rows_as(r@) =~= turns_in(ls, bar@, 0));
    while i < lines.len()
        invariant
            i <= lines@.len(),
            ls == texts(lines@),
            b@ == bar@,
            inside == (i > 0 && begins(ls[i - 1], bar@)),
            rows_as(r@) == turns_in(ls, bar@, i as int),
        decreases lines@.len() - i,
    {
        assert(ls[i as int] == lines@[i as int]@);
        let cs = chars_of(lines[i].as_str());
        let is_bar = starts_with(cs.as_slice(), b.as_slice());
        let ghost before = rows_as(r@);
        if is_bar && !inside {
            r.push(i);
            assert(rows_as(r@) =~= before.push(i as int));
        }
        inside = is_bar;
        i = i + 1;
    }
    r
}

/// The first of some rows past `here`.
pub open spec fn next_after(rows: Seq<int>, here: int) -> Option<int>
    decreases rows.len(),
{
    if rows.len() == 0 {
        None
    } else if rows[0] > here {
        Some(rows[0])
    } else {
        next_after(rows.skip(1), here)
    }
}

/// The last of some rows before `limit`.
pub open spec fn last_before(rows: Seq<int>, limit: int) -> Option<int>
    decreases rows.len(),
{
    if rows.len() == 0 {
        None
    } else if rows.last() < limit {
        Some(rows.last())
    } else {
        last_before(rows.drop_last(), limit)
    }
}

fn next_row(rows: &Vec<usize>, here: usize) -> (r: Option<usize>)
    ensures
        match r {
            Some(x) => next_after(rows_as(rows@), here as int) == Some(x as int),
            None => next_after(rows_as(rows@), here as int) is None,
        },
{
    let ghost rs = rows_as(rows@);
    let mut i: usize = 0;
    assert(rs.skip(0) =~= rs);
    while i < rows.len()
        invariant
            i <= rows@.len(),
            rs == rows_as(rows@),
            next_after(rs, here as int) == next_after(rs.skip(i as int), here as int),
        decreases rows@.len() - i,
    {
        assert(rs.skip(i as int)[0] == rows@[i as int]);
        assert(rs.skip(i as int).skip(1) =~= rs.skip(i + 1));
        if rows[i] > here {
            return Some(rows[i]);
        }
        i = i + 1;
    }
    None
}

fn previous_row(rows: &Vec<usize>, here: usize, here_too: bool) -> (r: Option<usize>)
    ensures
        ({
            let limit = if here_too {
                here + 1
            } else {
                here as int
            };
            match r {
                Some(x) => last_before(rows_as(rows@), limit) == Some(x as int),
                None => last_before(rows_as(rows@), limit) is None,
            }
        }),
{
    let ghost rs = rows_as(rows@);
    let ghost limit = if here_too {
        here + 1
    } else {
        here as int
    };
    let mut i: usize = rows.len();
    assert(rs.take(i as int) =~= rs);
    while i > 0
        invariant
            i <= rows@.len(),
            rs == rows_as(rows@),
            limit == (if here_too {
                here + 1
            } else {
                here as int
            }),
            last_before(rs, limit) == last_before(rs.take(i as int), limit),
        decreases i,
    {
        assert(rs.take(i as int).last() == rows@[i - 1]);
        assert(rs.take(i as int).drop_last() =~= rs.take(i - 1));
        if rows[i - 1] < here || (here_too && rows[i - 1] == here) {
            return Some(rows[i - 1]);
        }
        i = i - 1;
    }
    None
}

/// The turn after the one the cursor is in, or the one before. Nothing, where there is none.
pub fn reading_to_turn(lines: &Vec<String>, bar: &str, here: usize, later: bool) -> (r: Option<
    usize,
>)
    ensures
        ({
            let rows = turns_in(texts(lines@), bar@, lines@.len() as int);
            let want = if later {
                next_after(rows, here as int)
            } else {
                last_before(rows, here as int)
            };
            match r {
                Some(x) => want == Some(x as int),
                None => want is None,
            }
        }),
        // Never where the cursor is, always on the side that was asked for, and always where a turn
        // begins.
        r is Some ==> r->0 < lines@.len() && begins(lines@[r->0 as int]@, bar@) && (if later {
            here < r->0
        } else {
            r->0 < here
        }),
{
    let rows = turn_rows(lines, bar);
    proof {
        let turns = turns_in(texts(lines@), bar@, lines@.len() as int);
        a_turn_is_where_the_bar_begins(texts(lines@), bar@, lines@.len() as int);
        the_next_is_the_nearest_below(turns, here as int);
        the_one_before_is_the_nearest_above(turns, here as int);
        assert(forall|i: int| 0 <= i < lines@.len() ==> #[trigger] texts(lines@)[i] == lines@[i]@);
    }
    if later {
        next_row(&rows, here)
    } else {
        previous_row(&rows, here, false)
    }
}

/// The turn after the one the cursor is in, or the one before, or what is said where there is none.
pub fn turn_or_say(lines: &Vec<String>, bar: &str, here: usize, later: bool) -> (r: Result<
    usize,
    (MessageLevel, &'static str),
>)
    ensures
        ({
            let rows = turns_in(texts(lines@), bar@, lines@.len() as int);
            let want = if later {
                next_after(rows, here as int)
            } else {
                last_before(rows, here as int)
            };
            match r {
                Ok(x) => want == Some(x as int),
                Err(said) => want is None && said == (
                    MessageLevel::Info,
                    if later {
                        "no later turn"
                    } else {
                        "no earlier turn"
                    },
                ),
            }
        }),
{
    match reading_to_turn(lines, bar, here, later) {
        Some(row) => Ok(row),
        None => Err(
            (
                MessageLevel::Info,
                if later {
                    "no later turn"
                } else {
                    "no earlier turn"
                },
            ),
        ),
    }
}

/// The rows of the exchange the cursor is in: the question and everything it produced.
pub fn turn_span(lines: &Vec<String>, bar: &str, here: usize) -> (r: (usize, usize))
    ensures
        ({
            let rows = turns_in(texts(lines@), bar@, lines@.len() as int);
            &&& r.0 == (match last_before(rows, here + 1) {
                Some(x) => x,
                None => 0,
            })
            &&& r.1 == (match next_after(rows, here as int) {
                Some(x) => x,
                None => lines@.len() as int,
            })
        }),
        // The cursor is in it.
        here < lines@.len() ==> r.0 <= here < r.1 <= lines@.len(),
{
    let rows = turn_rows(lines, bar);
    proof {
        let turns = turns_in(texts(lines@), bar@, lines@.len() as int);
        a_turn_is_where_the_bar_begins(texts(lines@), bar@, lines@.len() as int);
        the_next_is_the_nearest_below(turns, here as int);
        the_one_before_is_the_nearest_above(turns, here + 1);
    }
    let from = match previous_row(&rows, here, true) {
        Some(x) => x,
        None => 0,
    };
    let to = match next_row(&rows, here) {
        Some(x) => x,
        None => lines.len(),
    };
    (from, to)
}

/// The rows of the code block a row is in. Standing on the language header is standing on the block.
pub open spec fn is_block(code: Seq<bool>, header: Seq<bool>, row: int, from: int, to: int) -> bool {
    let at = if code[row] {
        row
    } else {
        row + 1
    };
    &&& 0 <= from <= at < to <= code.len()
    &&& forall|i: int| from <= i < to ==> #[trigger] code[i]
    &&& from == 0 || !code[from - 1]
    &&& to == code.len() || !code[to]
}

/// Whether a row is in a code block at all.
pub open spec fn in_block(code: Seq<bool>, header: Seq<bool>, row: int) -> bool {
    &&& 0 <= row < code.len()
    &&& code[row] || (header[row] && row + 1 < code.len() && code[row + 1])
}

/// The code block the cursor is in, from which rows are code across their whole width and which are
/// the language line above a block.
pub fn code_block_at(code: &Vec<bool>, header: &Vec<bool>, row: usize) -> (r: Option<(usize, usize)>)
    requires
        code@.len() == header@.len(),
    ensures
        match r {
            Some((from, to)) => in_block(code@, header@, row as int) && is_block(
                code@,
                header@,
                row as int,
                from as int,
                to as int,
            ),
            None => !in_block(code@, header@, row as int),
        },
{
    let count = code.len();
    if row >= count {
        return None;
    }
    let at = if code[row] {
        row
    } else if header[row] && row < count - 1 && code[row + 1] {
        row + 1
    } else {
        return None;
    };
    let mut from: usize = at;
    while from > 0 && code[from - 1]
        invariant
            from <= at < count,
            count == code@.len(),
            forall|i: int| from <= i <= at ==> #[trigger] code@[i],
        decreases from,
    {
        from = from - 1;
    }
    let mut to: usize = at + 1;
    while to < count && code[to]
        invariant
            at < to <= count,
            count == code@.len(),
            forall|i: int| at <= i < to ==> #[trigger] code@[i],
        decreases count - to,
    {
        to = to + 1;
    }
    Some((from, to))
}

/// What `v` and `V` do to a selection.
#[derive(Debug, Clone, Copy, PartialEq, Eq, Structural)]
pub enum Selecting {
    Begin,
    Change,
    Drop,
}

/// `v` and `V`: start a selection of that shape, change a running one into it, or, pressed on the
/// shape it already is, drop it.
pub fn select_as(anchored: bool, running: SelectShape, shape: SelectShape) -> (r: Selecting)
    ensures
        r == (if !anchored {
            Selecting::Begin
        } else if running == shape {
            Selecting::Drop
        } else {
            Selecting::Change
        }),
        (r is Begin) == !anchored,
        r is Drop ==> running == shape,
        r is Change ==> running != shape,
{
    if !anchored {
        Selecting::Begin
    } else if running == shape {
        Selecting::Drop
    } else {
        Selecting::Change
    }
}

/// Whether a motion is a destination, so that going to it five times is going to it.
pub open spec fn is_destination(m: Motion) -> bool {
    m is BufStart || m is BufEnd || m is Row
}

/// How often a motion is made.
pub fn times(m: Motion, count: u32) -> (r: u32)
    ensures
        r == (if is_destination(m) || count == 0 {
            1
        } else {
            count as int
        }),
{
    match m {
        Motion::BufStart | Motion::BufEnd | Motion::Row(_) => 1,
        _ => if count == 0 {
            1
        } else {
            count
        },
    }
}

/// Whether a motion leaves a column behind for the next one to come back to.
pub fn keeps_column(m: Motion) -> (r: bool)
    ensures
        r == (m is Up || m is Down || m is LineEnd),
{
    match m {
        Motion::Up | Motion::Down | Motion::LineEnd => true,
        _ => false,
    }
}

/// Whether copying over a motion takes whole rows: a motion that spans rows does.
pub fn takes_rows(m: Motion) -> (r: bool)
    ensures
        r == (m is Up || m is Down || is_destination(m)),
{
    match m {
        Motion::Up | Motion::Down | Motion::BufStart | Motion::BufEnd | Motion::Row(_) => true,
        _ => false,
    }
}

/// A row without the indent a code block is drawn with.
pub open spec fn unindented(line: Seq<char>) -> Seq<char> {
    match past(line, "  "@) {
        Some(rest) => rest,
        None => line,
    }
}

/// The rows that are copied.
pub open spec fn copied(lines: Seq<Seq<char>>, from: int, to: int, strip: bool) -> Seq<Seq<char>> {
    let a = smaller(from, lines.len() as int);
    let b = smaller(to, lines.len() as int);
    let taken = if a <= b {
        lines.subrange(a, b)
    } else {
        seq![]
    };
    if strip {
        taken.map_values(|l: Seq<char>| unindented(l))
    } else {
        taken
    }
}

/// Copy some rows of the transcript: the text and how many there were, or nothing where there is
/// nothing on them.
pub fn yank_rows(lines: &Vec<String>, from: usize, to: usize, strip: bool) -> (r: Option<
    (String, usize),
>)
    ensures
        ({
            let rows = copied(texts(lines@), from as int, to as int, strip);
            let text = joined_with(rows, "\n"@);
            if is_blank(text) {
                r is None
            } else {
                match r {
                    Some((t, n)) => t@ == text && n == rows.len(),
                    None => false,
                }
            }
        }),
{
    let ghost ls = texts(lines@);
    let n = lines.len();
    assert(ls.len() == n);
    let a = if from < n {
        from
    } else {
        n
    };
    let b = if to < n {
        to
    } else {
        n
    };
    let ghost want = copied(ls, from as int, to as int, strip);
    let mut taken: Vec<String> = Vec::new();
    let mut i: usize = a;
    assert(texts(taken@) =~= want.take(0));
    while i < b
        invariant
            a <= i,
            a <= b ==> i <= b,
            a > b ==> i == a,
            b <= n,
            n == lines@.len(),
            ls == texts(lines@),
            a == smaller(from as int, n as int),
            b == smaller(to as int, n as int),
            want == copied(ls, from as int, to as int, strip),
            texts(taken@) == want.take(i - a),
        decreases b - i,
    {
        let ghost before = texts(taken@);
        assert(ls[i as int] == lines@[i as int]@);
        if strip {
            let cs = chars_of(lines[i].as_str());
            let text = match strip_lead(cs.as_slice(), "  ") {
                Some(rest) => crate::text::string_of(rest),
                None => lines[i].clone(),
            };
            let ghost said = text@;
            taken.push(text);
            assert(texts(taken@) =~= before.push(said));
            assert(want[i - a] == said);
        } else {
            taken.push(lines[i].clone());
            assert(texts(taken@) =~= before.push(ls[i as int]));
            assert(want[i - a] == ls[i as int]);
        }
        i = i + 1;
        assert(want.take(i - a) =~= before.push(want[i - a - 1]));
    }
    proof {
        if a <= b {
            assert(want.take(i - a) =~= want);
        } else {
            assert(want =~= seq![]);
            assert(want.take(i - a) =~= want);
        }
        assert(texts(taken@).len() == taken@.len());
    }
    let text = join_with(&taken, "\n");
    if crate::host::questions::blank_text(text.as_str()) {
        None
    } else {
        Some((text, taken.len()))
    }
}

/// What is said of something copied.
pub open spec fn copied_said(what: Seq<char>, lines: nat) -> Seq<char> {
    "copied "@ + what + " \u{2014} "@ + crate::text::decimal(lines) + " line"@ + (if lines == 1 {
        ""@
    } else {
        "s"@
    })
}

/// What is said of something copied.
pub fn say_copied(what: &str, lines: usize) -> (r: String)
    ensures
        r@ == copied_said(what@, lines as nat),
{
    let mut r = "copied ".to_owned();
    r.push_str(what);
    r.push_str(" \u{2014} ");
    r.push_str(crate::text::decimal_of(lines as u64).as_str());
    r.push_str(" line");
    r.push_str(
        if lines == 1 {
            ""
        } else {
            "s"
        },
    );
    r
}

/// Whether there is nothing on a row, or no such row.
pub open spec fn blank_at(blank: Seq<bool>, i: int) -> bool {
    !(0 <= i < blank.len()) || blank[i]
}

/// Off whatever run of like rows we are standing in, as far as it goes.
pub open spec fn run_end(blank: Seq<bool>, at: int, step: int, last: int) -> int
    decreases
        if step > 0 {
            last - at
        } else {
            at
        },
{
    if (step == 1 || step == -1) && 0 <= at <= last && 0 <= at + step <= last && blank_at(
        blank,
        at + step,
    ) == blank_at(blank, at) {
        run_end(blank, at + step, step, last)
    } else {
        at
    }
}

/// Past whatever blank rows there are, as far as they go.
pub open spec fn past_blanks(blank: Seq<bool>, at: int, step: int, last: int) -> int
    decreases
        if step > 0 {
            last - at
        } else {
            at
        },
{
    if (step == 1 || step == -1) && 0 <= at <= last && 0 <= at + step <= last && blank_at(
        blank,
        at,
    ) {
        past_blanks(blank, at + step, step, last)
    } else {
        at
    }
}

/// The next or previous block: off the run of rows we are standing in, and over the blank ones.
pub open spec fn block_from(blank: Seq<bool>, here: int, later: bool) -> int {
    let last = last_row(blank.len() as int);
    let step = if later {
        1int
    } else {
        -1
    };
    let at = run_end(blank, here, step, last);
    let next = clamped(at + step, 0, last);
    clamped(past_blanks(blank, next, step, last), 0, last)
}

/// The next or previous blank-line boundary, from which rows are blank. That is a paragraph, a list,
/// a table and a code block all at once, because every block is separated by one.
pub fn reading_to_block(blank: &Vec<bool>, here: usize, later: bool) -> (r: usize)
    requires
        here < blank@.len() || (here == 0 && blank@.len() == 0),
        blank@.len() < usize::MAX,
    ensures
        r == block_from(blank@, here as int, later),
{
    let n = blank.len();
    if n == 0 {
        return 0;
    }
    let last = n - 1;
    let ghost step = if later {
        1int
    } else {
        -1
    };
    let mut at: usize = here;
    if later {
        while at < last && blank[at + 1] == blank[at]
            invariant
                later,
                step == 1,
                n == blank@.len(),
                last == n - 1,
                at <= last,
                run_end(blank@, here as int, step, last as int) == run_end(
                    blank@,
                    at as int,
                    step,
                    last as int,
                ),
            decreases last - at,
        {
            at = at + 1;
        }
        at = if at < last {
            at + 1
        } else {
            last
        };
        let ghost next = at;
        while at < last && blank[at]
            invariant
                later,
                step == 1,
                n == blank@.len(),
                last == n - 1,
                at <= last,
                past_blanks(blank@, next as int, step, last as int) == past_blanks(
                    blank@,
                    at as int,
                    step,
                    last as int,
                ),
            decreases last - at,
        {
            at = at + 1;
        }
    } else {
        while at > 0 && blank[at - 1] == blank[at]
            invariant
                !later,
                step == -1,
                n == blank@.len(),
                last == n - 1,
                at <= last,
                run_end(blank@, here as int, step, last as int) == run_end(
                    blank@,
                    at as int,
                    step,
                    last as int,
                ),
            decreases at,
        {
            at = at - 1;
        }
        at = if at > 0 {
            at - 1
        } else {
            0
        };
        let ghost next = at;
        while at > 0 && blank[at]
            invariant
                !later,
                step == -1,
                n == blank@.len(),
                last == n - 1,
                at <= last,
                past_blanks(blank@, next as int, step, last as int) == past_blanks(
                    blank@,
                    at as int,
                    step,
                    last as int,
                ),
            decreases at,
        {
            at = at - 1;
        }
    }
    at
}

// ---- what is copied ---------------------------------------------------------

/// Copy the row the cursor is on.
pub fn yank_line(lines: &Vec<String>, row: usize) -> (r: Option<(String, usize)>)
    requires
        row < usize::MAX,
    ensures
        ({
            let rows = copied(texts(lines@), row as int, row + 1, false);
            let text = joined_with(rows, "\n"@);
            if is_blank(text) {
                r is None
            } else {
                match r {
                    Some((t, n)) => t@ == text && n == rows.len(),
                    None => false,
                }
            }
        }),
{
    yank_rows(lines, row, row + 1, false)
}

/// Copy the exchange the cursor is in: the question and everything it produced.
pub fn yank_turn(lines: &Vec<String>, bar: &str, here: usize) -> (r: Option<(String, usize)>)
    ensures
        ({
            let turns = turns_in(texts(lines@), bar@, lines@.len() as int);
            let from = match last_before(turns, here + 1) {
                Some(x) => x,
                None => 0,
            };
            let to = match next_after(turns, here as int) {
                Some(x) => x,
                None => lines@.len() as int,
            };
            let rows = copied(texts(lines@), from, to, false);
            let text = joined_with(rows, "\n"@);
            if is_blank(text) {
                r is None
            } else {
                match r {
                    Some((t, n)) => t@ == text && n == rows.len(),
                    None => false,
                }
            }
        }),
{
    let (from, to) = turn_span(lines, bar, here);
    yank_rows(lines, from, to, false)
}

/// Where the first row on screen goes so that the cursor's line is so many rows down.
pub fn place_cursor_line(row: u32, down: u32) -> (r: u32)
    ensures
        r == minus(row as int, down as int),
{
    if row >= down {
        row - down
    } else {
        0
    }
}

/// Moving by whole rows, as a motion and how often. Nowhere is no motion.
pub fn reading_by(delta: i64) -> (r: Option<(Motion, u32)>)
    ensures
        ({
            let away = if delta < 0 {
                -(delta as int)
            } else {
                delta as int
            };
            let often = if away > u32::MAX {
                u32::MAX as int
            } else {
                away
            };
            match r {
                None => delta == 0,
                Some((m, n)) => delta != 0 && n == often && m == (if delta > 0 {
                    Motion::Down
                } else {
                    Motion::Up
                }),
            }
        }),
{
    if delta == 0 {
        return None;
    }
    if delta > 0 {
        let n = if delta > 0xffff_ffff {
            0xffff_ffff
        } else {
            delta as u32
        };
        return Some((Motion::Down, n));
    }
    let n = if delta < -0xffff_ffff {
        0xffff_ffff
    } else {
        (-delta) as u32
    };
    Some((Motion::Up, n))
}

/// How many rows of the transcript are on screen, as far as that is known.
pub fn reading_page(rows: Option<u32>, height: Option<u32>) -> (r: u32)
    ensures
        r == (if rows is Some && rows->0 > 0 {
            rows->0
        } else if height is Some {
            if height->0 > 0 {
                height->0
            } else {
                1
            }
        } else {
            20
        }),
{
    if let Some(n) = rows {
        if n > 0 {
            return n;
        }
    }
    match height {
        Some(h) => if h > 0 {
            h
        } else {
            1
        },
        None => 20,
    }
}

/// How wide the transcript is drawn: what the frontend said, and never too narrow to read.
pub fn chat_width(width: Option<usize>) -> (r: usize)
    ensures
        r == (match width {
            Some(w) => if w > 24 {
                w
            } else {
                24
            },
            None => 80,
        }),
{
    match width {
        Some(w) => if w > 24 {
            w
        } else {
            24
        },
        None => 80,
    }
}

} // verus!
