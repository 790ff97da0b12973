//! Where moving about the transcript takes you, from wherever you are.

use crate::host::view::{
    block_from, clamped, copied, copied_said, followed, last_before, last_row, minus, next_after,
    past_blanks, rows_on_screen, run_end, scrolled, turn_begins, turns_in, unindented, window_moved,
    Scroll,
};
use crate::letters::holding_is_standing_within;
use crate::text::{begins, decimal};
use vstd::prelude::*;

verus! {

/// Scrolling up shows what was above, a page of it, as far as the top; scrolling down shows what was
/// below, and follows the newest again where that is the end.
pub proof fn a_screen_is_scrolled_by_a_page(top: u32, lines: u32, page: u32)
    ensures
        ({
            let up = scrolled(Scroll::Up, Some(top), lines, page);
            &&& up is Some
            &&& top >= page ==> up->0 + page == top
            &&& top < page ==> up->0 == 0
        }),
        ({
            let first = scrolled(Scroll::Up, None, lines, page);
            &&& first is Some
            &&& lines >= 2 * page ==> first->0 + 2 * page == lines
            &&& lines < 2 * page ==> first->0 == 0
        }),
        ({
            let down = scrolled(Scroll::Down, Some(top), lines, page);
            &&& (down is None) == (lines <= top + page + page)
            &&& down is Some ==> down->0 == top + page && down->0 + page < lines
        }),
        scrolled(Scroll::Down, None, lines, page) is None,
        scrolled(Scroll::Follow, Some(top), lines, page) is None,
        scrolled(Scroll::Follow, None, lines, page) is None,
{
}

/// Scrolling up undoes scrolling down.
pub proof fn scrolling_up_undoes_scrolling_down(top: u32, lines: u32, page: u32)
    requires
        scrolled(Scroll::Down, Some(top), lines, page) is Some,
    ensures
        scrolled(
            Scroll::Up,
            Some(scrolled(Scroll::Down, Some(top), lines, page)->0 as u32),
            lines,
            page,
        ) == Some(top as int),
{
}

/// What is on screen is what was said to be, and at least a row.
pub proof fn a_screen_has_a_row(rows: u32, height: u32)
    ensures
        rows_on_screen(rows, height) > 0,
        rows > 0 ==> rows_on_screen(rows, height) == rows,
        rows == 0 && height > 0 ==> rows_on_screen(rows, height) == height,
{
}

/// The window follows the cursor only where the cursor is off it, and then no further than it has
/// to: the cursor is on its first row or on its last.
pub proof fn the_window_moves_no_further_than_it_has_to(row: int, showing: int, rows: int)
    requires
        rows > 0,
    ensures
        (followed(row, showing, rows) is None) == (showing <= row < showing + rows),
        row < showing ==> followed(row, showing, rows) == Some(row),
        row >= showing + rows ==> followed(row, showing, rows) is Some && followed(
            row,
            showing,
            rows,
        )->0 + rows == row + 1,
{
}

/// The window moves by what it was told to, as far as there is something to show, and takes the
/// cursor along only where it would fall off.
pub proof fn the_cursor_stays_where_it_can(delta: int, showing: int, lines: int, page: int, row: int)
    requires
        page > 0,
        lines > 0,
        0 <= row < lines,
    ensures
        ({
            let (next, cursor) = window_moved(delta, showing, lines, page, row);
            &&& 0 <= next < lines
            &&& 0 <= showing + delta < lines ==> next == showing + delta
            &&& showing + delta < 0 ==> next == 0
            &&& showing + delta >= lines ==> next == lines - 1
            &&& next <= cursor < next + page
            &&& cursor < lines
            &&& next <= row < next + page ==> cursor == row
            &&& row < next ==> cursor == next
            &&& row >= next + page ==> cursor == next + page - 1
        }),
{
}

/// Whether some rows come from top to bottom.
pub open spec fn top_to_bottom(rows: Seq<int>) -> bool {
    forall|i: int, j: int| 0 <= i < j < rows.len() ==> #[trigger] rows[i] < #[trigger] rows[j]
}

/// The turns of a transcript are the rows with the bar of somebody speaking that have none above
/// them, every one, from top to bottom.
pub proof fn a_turn_is_where_the_bar_begins(lines: Seq<Seq<char>>, bar: Seq<char>, n: int)
    requires
        0 <= n <= lines.len(),
    ensures
        top_to_bottom(turns_in(lines, bar, n)),
        forall|i: int| #[trigger]
            turns_in(lines, bar, n).contains(i) == (0 <= i < n && begins(lines[i], bar) && (i == 0
                || !begins(lines[i - 1], bar))),
    decreases n,
{
    if n > 0 {
        a_turn_is_where_the_bar_begins(lines, bar, n - 1);
        let above = turns_in(lines, bar, n - 1);
        let all = turns_in(lines, bar, n);
        assert forall|i: int| #[trigger]
            all.contains(i) == (0 <= i < n && begins(lines[i], bar) && (i == 0 || !begins(
                lines[i - 1],
                bar,
            ))) by {
            if all.contains(i) {
                let k = choose|k: int| 0 <= k < all.len() && all[k] == i;
                if k < above.len() {
                    assert(above[k] == i);
                    assert(above.contains(i));
                }
            }
            if above.contains(i) {
                let k = choose|k: int| 0 <= k < above.len() && above[k] == i;
                assert(all[k] == i);
            }
            if i == n - 1 && turn_begins(lines, bar, i) {
                assert(all[above.len() as int] == i);
            }
        }
        assert forall|i: int, j: int| 0 <= i < j < all.len() implies #[trigger] all[i]
            < #[trigger] all[j] by {
            assert(above.contains(above[i]));
            if j < above.len() {
                assert(above[i] < above[j]);
            }
        }
    }
}

/// The next row of some is the nearest one below, and there is none only where none is below.
pub proof fn the_next_is_the_nearest_below(rows: Seq<int>, here: int)
    requires
        top_to_bottom(rows),
    ensures
        match next_after(rows, here) {
            Some(r) => rows.contains(r) && here < r && forall|d: int| #[trigger]
                rows.contains(d) && here < d ==> r <= d,
            None => forall|d: int| #[trigger] rows.contains(d) ==> d <= here,
        },
    decreases rows.len(),
{
    if rows.len() > 0 {
        let rest = rows.skip(1);
        assert forall|i: int, j: int| 0 <= i < j < rest.len() implies #[trigger] rest[i]
            < #[trigger] rest[j] by {
            assert(rows[i + 1] < rows[j + 1]);
        }
        the_next_is_the_nearest_below(rest, here);
        assert(rows.contains(rows[0]));
        assert forall|d: int| #[trigger] rows.contains(d) implies d == rows[0] || (rest.contains(d)
            && rows[0] < d) by {
            let k = choose|k: int| 0 <= k < rows.len() && rows[k] == d;
            if k > 0 {
                assert(rest[k - 1] == d);
                assert(rows[0] < rows[k]);
            }
        }
        assert forall|d: int| #[trigger] rest.contains(d) implies rows.contains(d) by {
            let k = choose|k: int| 0 <= k < rest.len() && rest[k] == d;
            assert(rows[k + 1] == d);
        }
    }
}

/// The last row of some before another is the nearest one above it, and there is none only where
/// none is above.
pub proof fn the_one_before_is_the_nearest_above(rows: Seq<int>, limit: int)
    requires
        top_to_bottom(rows),
    ensures
        match last_before(rows, limit) {
            Some(r) => rows.contains(r) && r < limit && forall|d: int| #[trigger]
                rows.contains(d) && d < limit ==> d <= r,
            None => forall|d: int| #[trigger] rows.contains(d) ==> limit <= d,
        },
    decreases rows.len(),
{
    if rows.len() > 0 {
        let rest = rows.drop_last();
        assert forall|i: int, j: int| 0 <= i < j < rest.len() implies #[trigger] rest[i]
            < #[trigger] rest[j] by {
            assert(rows[i] < rows[j]);
        }
        the_one_before_is_the_nearest_above(rest, limit);
        assert(rows.contains(rows[rows.len() - 1]));
        assert forall|d: int| #[trigger] rows.contains(d) implies d == rows.last() || (rest.contains(
            d,
        ) && d < rows.last()) by {
            let k = choose|k: int| 0 <= k < rows.len() && rows[k] == d;
            if k < rows.len() - 1 {
                assert(rest[k] == d);
                assert(rows[k] < rows[rows.len() - 1]);
            }
        }
        assert forall|d: int| #[trigger] rest.contains(d) implies rows.contains(d) by {
            let k = choose|k: int| 0 <= k < rest.len() && rest[k] == d;
            assert(rows[k] == d);
        }
    }
}

proof fn lemma_run_down(blank: Seq<bool>, at: int)
    requires
        0 <= at < blank.len(),
    ensures
        ({
            let e = run_end(blank, at, 1, blank.len() - 1);
            &&& at <= e < blank.len()
            &&& forall|i: int| at <= i <= e ==> #[trigger] blank[i] == blank[at]
            &&& e + 1 < blank.len() ==> blank[e + 1] != blank[at]
        }),
    decreases blank.len() - at,
{
    if at + 1 < blank.len() && blank[at + 1] == blank[at] {
        lemma_run_down(blank, at + 1);
    }
}

proof fn lemma_run_up(blank: Seq<bool>, at: int)
    requires
        0 <= at < blank.len(),
    ensures
        ({
            let e = run_end(blank, at, -1, blank.len() - 1);
            &&& 0 <= e <= at
            &&& forall|i: int| e <= i <= at ==> #[trigger] blank[i] == blank[at]
            &&& e > 0 ==> blank[e - 1] != blank[at]
        }),
    decreases at,
{
    if at > 0 && blank[at - 1] == blank[at] {
        lemma_run_up(blank, at - 1);
    }
}

proof fn lemma_past_down(blank: Seq<bool>, at: int)
    requires
        0 <= at < blank.len(),
    ensures
        ({
            let r = past_blanks(blank, at, 1, blank.len() - 1);
            &&& at <= r < blank.len()
            &&& forall|i: int| at <= i < r ==> #[trigger] blank[i]
            &&& !blank[r] || r == blank.len() - 1
        }),
    decreases blank.len() - at,
{
    if at + 1 < blank.len() && blank[at] {
        lemma_past_down(blank, at + 1);
    }
}

proof fn lemma_past_up(blank: Seq<bool>, at: int)
    requires
        0 <= at < blank.len(),
    ensures
        ({
            let r = past_blanks(blank, at, -1, blank.len() - 1);
            &&& 0 <= r <= at
            &&& forall|i: int| r < i <= at ==> #[trigger] blank[i]
            &&& !blank[r] || r == 0
        }),
    decreases at,
{
    if at > 0 && blank[at] {
        lemma_past_up(blank, at - 1);
    }
}

/// On to the next block is down to the first row with something on it below what the cursor is in:
/// the rows left behind are all of one kind, and those skipped after them are blank.
pub proof fn the_next_block_is_the_next_rows_with_something_on_them(blank: Seq<bool>, here: int)
    requires
        0 <= here < blank.len(),
    ensures
        ({
            let r = block_from(blank, here, true);
            &&& here <= r < blank.len()
            &&& r == here ==> here == blank.len() - 1
            &&& !blank[r] || r == blank.len() - 1
            &&& exists|e: int|
                {
                    &&& here <= e < blank.len()
                    &&& forall|i: int| here <= i <= e ==> #[trigger] blank[i] == blank[here]
                    &&& #[trigger] ends_down(blank, e)
                    &&& forall|i: int| e < i < r ==> #[trigger] blank[i]
                }
        }),
{
    let last = blank.len() - 1;
    let e = run_end(blank, here, 1, last);
    lemma_run_down(blank, here);
    let next = clamped(e + 1, 0, last);
    lemma_past_down(blank, next);
    assert(blank[e] == blank[here]);
    assert(ends_down(blank, e));
}

/// Whether a run of rows, all blank or none of them, ends with a row, going down.
pub open spec fn ends_down(blank: Seq<bool>, e: int) -> bool {
    e + 1 >= blank.len() || blank[e + 1] != blank[e]
}

/// Whether a run of rows, all blank or none of them, ends with a row, going up.
pub open spec fn ends_up(blank: Seq<bool>, e: int) -> bool {
    e <= 0 || blank[e - 1] != blank[e]
}

/// Back to the block before is up to the last row with something on it above what the cursor is in.
pub proof fn the_block_before_is_the_rows_before_with_something_on_them(blank: Seq<bool>, here: int)
    requires
        0 <= here < blank.len(),
    ensures
        ({
            let r = block_from(blank, here, false);
            &&& 0 <= r <= here
            &&& r == here ==> here == 0
            &&& !blank[r] || r == 0
            &&& exists|e: int|
                {
                    &&& 0 <= e <= here
                    &&& forall|i: int| e <= i <= here ==> #[trigger] blank[i] == blank[here]
                    &&& #[trigger] ends_up(blank, e)
                    &&& forall|i: int| r < i < e ==> #[trigger] blank[i]
                }
        }),
{
    let last = blank.len() - 1;
    let e = run_end(blank, here, -1, last);
    lemma_run_up(blank, here);
    let next = clamped(e - 1, 0, last);
    lemma_past_up(blank, next);
    assert(blank[e] == blank[here]);
    assert(ends_up(blank, e));
}

/// What is copied is the rows asked for, each of them once and in order, without the two columns
/// that code stands in from where they are to be taken off.
pub proof fn what_is_copied_is_what_was_there(lines: Seq<Seq<char>>, from: int, to: int, strip: bool)
    requires
        0 <= from <= to <= lines.len(),
    ensures
        copied(lines, from, to, strip).len() == to - from,
        forall|i: int|
            0 <= i < to - from ==> ({
                let row = #[trigger] copied(lines, from, to, strip)[i];
                let line = lines[from + i];
                if strip && line.len() >= 2 && line[0] == ' ' && line[1] == ' ' {
                    row == line.skip(2)
                } else {
                    row == line
                }
            }),
{
    let rows = copied(lines, from, to, strip);
    assert forall|i: int| 0 <= i < to - from implies ({
        let row = #[trigger] rows[i];
        let line = lines[from + i];
        if strip && line.len() >= 2 && line[0] == ' ' && line[1] == ' ' {
            row == line.skip(2)
        } else {
            row == line
        }
    }) by {
        let line = lines[from + i];
        assert(lines.subrange(from, to)[i] == line);
        code_loses_two_columns(line);
    }
}

/// Code loses the two columns it stands in from, and nothing else.
pub proof fn code_loses_two_columns(line: Seq<char>)
    ensures
        unindented(seq![' ', ' '] + line) == line,
        line.len() >= 2 && line[0] == ' ' && line[1] == ' ' ==> unindented(line) == line.skip(2),
        !(line.len() >= 2 && line[0] == ' ' && line[1] == ' ') ==> unindented(line) == line,
{
    reveal_strlit("  ");
    assert("  "@ =~= seq![' ', ' ']);
    holding_is_standing_within(seq![], "  "@, line);
    if line.len() >= 2 && line[0] == ' ' && line[1] == ' ' {
        assert(line.subrange(0, 2) =~= "  "@);
        assert(line.take(2) =~= "  "@);
    } else if begins(line, "  "@) {
        assert(line.take(2)[0] == ' ' && line.take(2)[1] == ' ');
    }
}

/// What is said of a copy names what was copied and how many lines of it.
pub proof fn a_copy_says_how_much_it_was(what: Seq<char>, lines: nat)
    ensures
        lines == 1 ==> copied_said(what, lines) == "copied "@ + what + " \u{2014} "@ + decimal(1)
            + " line"@,
        lines != 1 ==> copied_said(what, lines) == "copied "@ + what + " \u{2014} "@ + decimal(
            lines,
        ) + " lines"@,
{
    reveal_strlit("");
    reveal_strlit("s");
    reveal_strlit(" line");
    reveal_strlit(" lines");
    assert(" lines"@ =~= " line"@ + "s"@);
    let head = "copied "@ + what + " \u{2014} "@ + decimal(lines);
    assert(head + " line"@ + ""@ =~= head + " line"@);
    assert(head + " line"@ + "s"@ =~= head + " lines"@);
}

/// Taking away stops at nothing, and keeping within bounds changes only what is outside them.
pub proof fn rows_are_kept_within_bounds(a: int, lo: int, hi: int)
    requires
        lo <= hi,
    ensures
        lo <= clamped(a, lo, hi) <= hi,
        lo <= a <= hi ==> clamped(a, lo, hi) == a,
        a < lo ==> clamped(a, lo, hi) == lo,
        a > hi ==> clamped(a, lo, hi) == hi,
        a >= lo ==> minus(a, lo) + lo == a,
        a < lo ==> minus(a, lo) == 0,
        a > 0 ==> last_row(a) + 1 == a,
        a <= 0 ==> last_row(a) == 0,
{
}

} // verus!
