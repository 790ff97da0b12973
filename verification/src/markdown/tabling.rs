//! What a table keeps: every cell on its row and in its column, and every value after its label.

use crate::markdown::bounds::{lemma_lines_skip, lemma_table_rows};
use crate::markdown::lines::are_lines;
use crate::markdown::model::{
    align_of, ask, bare, cell_at, cells_of, column_width, columns, dashes_of, entries, entry,
    is_dashes, is_table, is_whole, label_width, padding, records_of, repeated, set_against,
    set_cells, set_row, spaces, table_of, table_rows, total_width, unbarred, Align, MAX_CELL,
};
use crate::markdown::promises::lacks;
use crate::measure::{clip_of, columns_of};
use crate::paths::spelling::lemma_split_concat;
use crate::text::{
    is_white, lemma_after_lead, lemma_before_tail, lemma_position, lemma_tail_stop, split_on,
    trim_of, trim_start_of,
};
use vstd::prelude::*;

verus! {

// ---- cells ------------------------------------------------------------------

/// Some cells with a bar between each.
pub open spec fn between_bars(cells: Seq<Seq<char>>) -> Seq<char>
    decreases cells.len(),
{
    if cells.len() == 0 {
        seq![]
    } else if cells.len() == 1 {
        cells[0]
    } else {
        cells[0] + seq!['|'] + between_bars(cells.skip(1))
    }
}

proof fn lemma_split_bars(cells: Seq<Seq<char>>)
    requires
        cells.len() > 0,
        forall|i: int| 0 <= i < cells.len() ==> lacks(#[trigger] cells[i], '|'),
    ensures
        split_on(between_bars(cells), '|') == cells,
    decreases cells.len(),
{
    assert(lacks(cells[0], '|'));
    lemma_position(cells[0], '|', cells[0].len() as int);
    assert(split_on(cells[0], '|') =~= seq![cells[0]]);
    if cells.len() == 1 {
        assert(cells =~= seq![cells[0]]);
    } else {
        let rest = cells.skip(1);
        assert forall|i: int| 0 <= i < rest.len() implies lacks(#[trigger] rest[i], '|') by {
            assert(rest[i] == cells[i + 1]);
        }
        lemma_split_bars(rest);
        lemma_split_concat(cells[0], between_bars(rest), '|');
        assert(seq![cells[0]] + rest =~= cells);
    }
}

/// A row between bars has the cells that stand between them, without the space around each. Its
/// newline is no part of it.
pub proof fn a_row_has_the_cells_between_its_bars(cells: Seq<Seq<char>>)
    requires
        cells.len() >= 2,
        forall|i: int| 0 <= i < cells.len() ==> lacks(#[trigger] cells[i], '|'),
    ensures
        cells_of(seq!['|'] + between_bars(cells) + seq!['|']) == Some(
            cells.map_values(|c: Seq<char>| trim_of(c)),
        ),
        cells_of(seq!['|'] + between_bars(cells) + seq!['|', '\n']) == Some(
            cells.map_values(|c: Seq<char>| trim_of(c)),
        ),
{
    let inner = between_bars(cells);
    let t = seq!['|'] + inner + seq!['|'];
    let n = t.len() as int;
    let line = seq!['|'] + inner + seq!['|', '\n'];
    assert(line =~= t.push('\n'));
    let p = |c: char| c == '\n' || c == '\r';
    lemma_before_tail(t, p, n);
    lemma_before_tail(line, p, n);
    assert(t.take(n) =~= t);
    assert(line.take(n) =~= t);
    let w = |c: char| is_white(c);
    lemma_after_lead(t, w, 0);
    assert(t.skip(0) =~= t);
    lemma_before_tail(t, w, n);
    assert(trim_of(t) == t);
    assert(t.take(1) =~= seq!['|']);
    let u = t.skip(1);
    assert(u.last() == '|');
    assert(u.drop_last() =~= inner);
    assert(unbarred(t) == inner);
    lemma_split_bars(cells);
    assert(t.contains('|')) by {
        assert(t[0] == '|');
    }
}

/// A line without a bar is no row of a table.
pub proof fn a_row_has_bars(line: Seq<char>)
    requires
        lacks(line, '|'),
    ensures
        cells_of(line) is None,
{
    let b = bare(line);
    let i = lemma_tail_stop(line, |c: char| c == '\n' || c == '\r');
    let j = crate::text::lemma_lead_stop(b, |c: char| is_white(c));
    let s = trim_start_of(b);
    let k = lemma_tail_stop(s, |c: char| is_white(c));
    let t = trim_of(b);
    if t.contains('|') {
        let m = choose|m: int| 0 <= m < t.len() && t[m] == '|';
        assert(t[m] == s[m]);
        assert(s[m] == b[m + j]);
        assert(b[m + j] == line[m + j]);
    }
}

/// A colon says which edge its column is set against: the right where it stands at the right, the
/// middle where there is one at either end, and the left otherwise.
pub proof fn a_colon_says_which_edge(left: bool, n: nat, right: bool)
    requires
        n > 0,
    ensures
        ({
            let l: Seq<char> = if left {
                seq![':']
            } else {
                seq![]
            };
            let r: Seq<char> = if right {
                seq![':']
            } else {
                seq![]
            };
            let cell = l + repeated('-', n) + r;
            &&& is_dashes(cell)
            &&& align_of(cell) == (if right && left {
                Align::Centre
            } else if right {
                Align::Right
            } else {
                Align::Left
            })
        }),
{
    let l: Seq<char> = if left {
        seq![':']
    } else {
        seq![]
    };
    let r: Seq<char> = if right {
        seq![':']
    } else {
        seq![]
    };
    let cell = l + repeated('-', n) + r;
    let w = |c: char| is_white(c);
    let colon = |c: char| c == ':';
    assert(cell[0] == ':' || cell[0] == '-');
    assert(cell.last() == ':' || cell.last() == '-');
    lemma_after_lead(cell, w, 0);
    assert(cell.skip(0) =~= cell);
    lemma_before_tail(cell, w, cell.len() as int);
    assert(cell.take(cell.len() as int) =~= cell);
    assert(trim_of(cell) == cell);
    let k = l.len() as int;
    assert(cell[k] == '-');
    lemma_after_lead(cell, colon, k);
    let a = cell.skip(k);
    assert(a =~= repeated('-', n) + r);
    assert(a[n as int - 1] == '-');
    lemma_before_tail(a, colon, n as int);
    assert(a.take(n as int) =~= repeated('-', n));
    assert(dashes_of(cell) =~= repeated('-', n));
}

/// A cell stands in its column whole, with spaces to fill it: after it on the left, before it on the
/// right, and shared out as evenly as can be in the middle.
pub proof fn a_cell_is_set_against_its_edge(c: Seq<char>, columns: nat, width: nat, align: Align)
    ensures
        exists|before: nat, after: nat|
            {
                &&& #[trigger] (spaces(before) + c + spaces(after)) == set_against(
                    c,
                    columns,
                    width,
                    align,
                )
                &&& columns <= width ==> before + columns + after == width
                &&& columns > width ==> before == 0 && after == 0
                &&& align is Left ==> before == 0
                &&& align is Right ==> after == 0
                &&& align is Centre ==> before <= after <= before + 1
            },
{
    let pad = padding(columns, width);
    let none: Seq<char> = seq![];
    assert(spaces(0) =~= none);
    let (before, after): (nat, nat) = match align {
        Align::Left => (0, pad),
        Align::Right => (pad, 0),
        Align::Centre => (pad / 2, (pad - pad / 2) as nat),
    };
    assert(spaces(before) + c + spaces(after) =~= set_against(c, columns, width, align));
}

/// A column is as wide as the widest thing in it, and no wider than a column may be.
pub proof fn a_column_is_as_wide_as_it_has_to_be(header: Seq<nat>, rows: Seq<Seq<nat>>, i: int, j: int)
    requires
        0 <= i < header.len(),
    ensures
        ({
            let w = column_width(header, rows, i);
            &&& w <= MAX_CELL
            &&& ask(header[i]) <= w
            &&& 0 <= j < rows.len() && i < rows[j].len() ==> ask(rows[j][i]) <= w
            &&& w == ask(header[i]) || exists|k: int|
                0 <= k < rows.len() && i < (#[trigger] rows[k]).len() && w == ask(rows[k][i])
        }),
        header[i] <= MAX_CELL ==> ask(header[i]) == header[i],
    decreases rows.len(),
{
    if rows.len() > 0 {
        let less = rows.drop_last();
        a_column_is_as_wide_as_it_has_to_be(header, less, i, j);
        let above = column_width(header, less, i);
        let w = column_width(header, rows, i);
        let n = rows.len() - 1;
        assert(rows[n] == rows.last());
        if 0 <= j < n {
            assert(less[j] == rows[j]);
        }
        if w == above && w != ask(header[i]) {
            let k = choose|k: int|
                0 <= k < less.len() && i < (#[trigger] less[k]).len() && above == ask(less[k][i]);
            assert(rows[k] == less[k]);
        } else if w != ask(header[i]) {
            assert(i < rows[n].len() && w == ask(rows[n][i]));
        }
    }
}

// ---- rows -------------------------------------------------------------------

/// Whether a text holds another at a place.
pub open spec fn stands(s: Seq<char>, at: int, t: Seq<char>) -> bool {
    0 <= at && at + t.len() <= s.len() && s.subrange(at, at + t.len()) == t
}

proof fn lemma_cell_stands(
    cs: Seq<Seq<char>>,
    widths: Seq<nat>,
    aligns: Seq<Align>,
    n: int,
    i: int,
) -> (at: int)
    requires
        0 <= i < n,
    ensures
        stands(set_cells(cs, widths, aligns, n), at, clip_of(cell_at(cs, i), widths[i])),
    decreases n,
{
    let all = set_cells(cs, widths, aligns, n);
    if i == n - 1 {
        let above = set_cells(cs, widths, aligns, n - 1);
        let c = clip_of(cell_at(cs, i), widths[i]);
        a_cell_is_set_against_its_edge(c, columns_of(c), widths[i], aligns[i]);
        let (before, after) = choose|before: nat, after: nat|
            #[trigger] (spaces(before) + c + spaces(after)) == set_against(
                c,
                columns_of(c),
                widths[i],
                aligns[i],
            );
        let at = above.len() as int + 2 + before;
        assert(all.subrange(at, at + c.len()) =~= c);
        at
    } else {
        let at = lemma_cell_stands(cs, widths, aligns, n - 1, i);
        let c = clip_of(cell_at(cs, i), widths[i]);
        assert(all.subrange(at, at + c.len()) =~= set_cells(
            cs,
            widths,
            aligns,
            n - 1,
        ).subrange(at, at + c.len()));
        at
    }
}

/// Every cell of a table is on its row, clipped to its column and otherwise whole. Cells have no white
/// space at their ends.
pub proof fn every_cell_is_on_its_row(
    cs: Seq<Seq<char>>,
    widths: Seq<nat>,
    aligns: Seq<Align>,
    i: int,
)
    requires
        0 <= i < widths.len(),
        clip_of(cell_at(cs, i), widths[i]).len() > 0,
        !is_white(clip_of(cell_at(cs, i), widths[i]).last()),
    ensures
        exists|at: int|
            #[trigger] stands(
                set_row(cs, widths, aligns),
                at,
                clip_of(cell_at(cs, i), widths[i]),
            ),
{
    let n = widths.len() as int;
    let all = set_cells(cs, widths, aligns, n);
    let c = clip_of(cell_at(cs, i), widths[i]);
    let at = lemma_cell_stands(cs, widths, aligns, n, i);
    let k = lemma_tail_stop(all, |x: char| is_white(x));
    let row = set_row(cs, widths, aligns);
    assert(all.subrange(at, at + c.len())[c.len() - 1] == all[at + c.len() - 1]);
    assert(k >= at + c.len());
    assert(row.subrange(at, at + c.len()) =~= all.subrange(at, at + c.len()));
    assert(stands(row, at, c));
}

/// A table set in columns has a row for its labels, a rule under them, and a row for each of its rows,
/// in order.
pub proof fn a_table_has_a_row_for_each_of_its_rows(
    header: Seq<Seq<char>>,
    rows: Seq<Seq<Seq<char>>>,
    widths: Seq<nat>,
    aligns: Seq<Align>,
    k: int,
)
    requires
        0 <= k < rows.len(),
    ensures
        ({
            let d = columns(header, rows, widths, aligns);
            &&& d.rows.len() == 2 + rows.len()
            &&& d.rows[0] == set_row(header, widths, aligns)
            &&& d.rows[2 + k] == set_row(rows[k], widths, aligns)
            &&& d.marks.len() == 2
            &&& d.marks[0].row == 0 && d.marks[0].group == "Markdown.Heading"
            &&& d.marks[1].row == 1 && d.marks[1].group == "Markdown.Rule"
        }),
{
}

/// In a table too wide to line up, every value is on a row of its own, whole, after the label of its
/// column.
pub proof fn every_value_stands_after_its_label(
    header: Seq<Seq<char>>,
    row: Seq<Seq<char>>,
    n: int,
    j: int,
)
    requires
        0 <= j < n,
    ensures
        ({
            let d = entries(header, row, n);
            let name = clip_of(cell_at(header, j), label_width(header));
            let line = d.rows[j];
            &&& d.rows.len() == n
            &&& stands(line, 2, name)
            &&& line.len() >= 2 + name.len() + 2 + row[j].len()
            &&& stands(line, line.len() - row[j].len(), row[j])
        }),
    decreases n,
{
    let d = entries(header, row, n);
    if j == n - 1 {
        let label = label_width(header);
        let name = clip_of(cell_at(header, j), label);
        let e = entry(cell_at(header, j), label, row[j]);
        if n > 1 {
            every_value_stands_after_its_label(header, row, n - 1, 0);
        }
        assert(d.rows[j] == e.text);
        assert(e.text.subrange(2, 2 + name.len() as int) =~= name);
        assert(e.text.subrange(e.text.len() - row[j].len(), e.text.len() as int) =~= row[j]);
    } else {
        every_value_stands_after_its_label(header, row, n - 1, j);
    }
}

/// A table goes on for as long as its lines are rows, and no longer: each of its rows is the line it
/// came from, and the line after the last of them is none.
pub proof fn a_table_ends_at_the_first_line_that_is_no_row(raw: Seq<Seq<char>>, k: int)
    requires
        are_lines(raw),
    ensures
        ({
            let rows = table_rows(raw);
            &&& rows.len() <= raw.len()
            &&& 0 <= k < rows.len() ==> cells_of(raw[k]) == Some(rows[k])
            &&& rows.len() < raw.len() ==> cells_of(raw[rows.len() as int]) is None || (rows.len()
                == raw.len() - 1 && !is_whole(raw.last()))
        }),
    decreases raw.len(),
{
    lemma_table_rows(raw);
    let rows = table_rows(raw);
    if raw.len() == 0 || (raw.len() == 1 && !is_whole(raw[0])) {
    } else if cells_of(raw[0]) is Some {
        let tail = raw.skip(1);
        lemma_lines_skip(raw, 1);
        a_table_ends_at_the_first_line_that_is_no_row(tail, k - 1);
        let more = table_rows(tail);
        assert(rows == seq![cells_of(raw[0])->0] + more);
        if more.len() < tail.len() {
            assert(tail[more.len() as int] == raw[rows.len() as int]);
            assert(tail.last() == raw.last());
        }
    }
}

/// A table is set in columns where they fit, and as records where they do not.
pub proof fn a_table_is_set_in_columns_where_they_fit(raw: Seq<Seq<char>>)
    requires
        is_table(raw),
    ensures
        ({
            let header = cells_of(raw[0])->0;
            let rows = table_rows(raw.skip(2));
            let widths = Seq::new(
                header.len(),
                |i: int|
                    column_width(
                        header.map_values(|c: Seq<char>| columns_of(c)),
                        rows.map_values(
                            |r: Seq<Seq<char>>| r.map_values(|c: Seq<char>| columns_of(c)),
                        ),
                        i,
                    ),
            );
            &&& total_width(widths) <= 100 ==> table_of(raw).rows.len() == 2 + rows.len()
            &&& total_width(widths) > 100 ==> table_of(raw) == records_of(
                header,
                rows,
                rows.len() as int,
            )
        }),
{
    let header = cells_of(raw[0])->0;
    let rows = table_rows(raw.skip(2));
    assert(rows.map_values(|r: Seq<Seq<char>>| crate::markdown::model::measures(r))
        =~= rows.map_values(|r: Seq<Seq<char>>| r.map_values(|c: Seq<char>| columns_of(c))));
    assert(crate::markdown::model::measures(header) =~= header.map_values(
        |c: Seq<char>| columns_of(c),
    ));
    let widths = Seq::new(
        header.len(),
        |i: int|
            column_width(
                header.map_values(|c: Seq<char>| columns_of(c)),
                rows.map_values(
                    |r: Seq<Seq<char>>| r.map_values(|c: Seq<char>| columns_of(c)),
                ),
                i,
            ),
    );
    assert(widths =~= crate::markdown::model::column_widths(
        crate::markdown::model::measures(header),
        rows.map_values(|r: Seq<Seq<char>>| crate::markdown::model::measures(r)),
    ));
}

} // verus!
