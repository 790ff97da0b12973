//! Pipe tables: set in columns where they fit, and as records where they do not.

use crate::markdown::block::{
    lemma_row_begun, lemma_row_whole, only, push_repeated, push_spaces, strip_newline,
};
use crate::markdown::inline::{
    lemma_marked, lemma_moved_concat, lemma_moved_twice, lemma_row_after, mark_since,
};
use crate::markdown::model::{
    align_of, body_rows, cell_at, cells_of, column_width, column_widths, columns, delimiter_of,
    entries, entry, is_dashes, is_table, is_whole, join, label_width, marked, measures, moved,
    nothing, padding, plain, records_of, repeated, row_of, set_against, set_cells, set_row, spaces,
    stack, table_of, table_rows, total_width, unbarred, Align, Drawn, Span, MAX_CELL, MAX_TABLE,
};
use crate::markdown::{spans, Mark};
use crate::measure::{clip, columns_of, display_width};
use crate::text::{
    after_lead, before_tail, begins, bytes_in, lemma_after_lead, lemma_before_tail,
    lemma_position_found, position, split_on, string_of, texts, trim, trim_end, trim_of,
    width_in_bytes,
};
use vstd::prelude::*;
use vstd::slice::slice_subrange;

verus! {

/// Whether a character occurs in a text.
pub fn contains_char(s: &[char], c: char) -> (r: bool)
    ensures
        r == s@.contains(c),
{
    let i = position(s, c);
    proof {
        lemma_position_found(s@, c);
        if i < s@.len() {
            assert(s@[i as int] == c);
        }
    }
    i < s.len()
}

/// A row of cells without the bars at its ends.
fn strip_bars(t: &[char]) -> (r: &[char])
    ensures
        r@ == unbarred(t@),
{
    let a = if t.len() > 0 && t[0] == '|' {
        slice_subrange(t, 1, t.len())
    } else {
        t
    };
    proof {
        if t@.len() > 0 {
            assert(t@.take(1) =~= seq![t@[0]]);
            assert(seq!['|'][0] == '|');
            assert(t@.subrange(1, t@.len() as int) =~= t@.skip(1));
            assert((t@[0] == '|') == begins(t@, seq!['|'])) by {
                if t@[0] == '|' {
                    assert(t@.take(1) =~= seq!['|']);
                } else {
                    assert(t@.take(1)[0] != seq!['|'][0]);
                }
            }
        }
    }
    if a.len() > 0 && a[a.len() - 1] == '|' {
        let r = slice_subrange(a, 0, a.len() - 1);
        assert(r@ =~= a@.drop_last());
        r
    } else {
        a
    }
}

/// The pieces of a text between one `c` and the next, each without the white space around it.
pub fn split_trimmed(s: &[char], c: char) -> (r: Vec<String>)
    ensures
        texts(r@) == split_on(s@, c).map_values(|p: Seq<char>| trim_of(p)),
{
    let mut r: Vec<String> = Vec::new();
    let mut rest = s;
    let ghost want = split_on(s@, c).map_values(|p: Seq<char>| trim_of(p));
    proof {
        assert(texts(r@) + want =~= want);
    }
    loop
        invariant
            texts(r@) + split_on(rest@, c).map_values(|p: Seq<char>| trim_of(p)) == want,
            want == split_on(s@, c).map_values(|p: Seq<char>| trim_of(p)),
        decreases rest@.len(),
    {
        let i = position(rest, c);
        let ghost before = texts(r@);
        if i >= rest.len() {
            let piece = string_of(trim(rest));
            r.push(piece);
            proof {
                assert(split_on(rest@, c) =~= seq![rest@]);
                assert(texts(r@) =~= before + split_on(rest@, c).map_values(
                    |p: Seq<char>| trim_of(p),
                ));
            }
            return r;
        }
        let head = slice_subrange(rest, 0, i);
        let tail = slice_subrange(rest, i + 1, rest.len());
        let piece = string_of(trim(head));
        r.push(piece);
        proof {
            assert(head@ =~= rest@.take(i as int));
            assert(tail@ =~= rest@.skip(i + 1));
            assert(split_on(rest@, c) == seq![rest@.take(i as int)] + split_on(rest@.skip(i + 1), c));
            assert(texts(r@) =~= before.push(piece@));
            assert(texts(r@) + split_on(tail@, c).map_values(|p: Seq<char>| trim_of(p))
                =~= before + split_on(rest@, c).map_values(|p: Seq<char>| trim_of(p)));
        }
        rest = tail;
    }
}

/// The cells of a table row, or nothing if this line is not one.
pub fn cells(line: &[char]) -> (r: Option<Vec<String>>)
    ensures
        match r {
            Some(cs) => cells_of(line@) == Some(texts(cs@)),
            None => cells_of(line@) is None,
        },
{
    let t = trim(strip_newline(line));
    if !contains_char(t, '|') {
        return None;
    }
    let out = split_trimmed(strip_bars(t), '|');
    assert(texts(out@).len() == out@.len());
    if out.len() >= 2 {
        Some(out)
    } else {
        None
    }
}

/// The dashes of one cell of an alignment row.
fn dashes(body: &[char]) -> (r: &[char])
    ensures
        r@ == before_tail(after_lead(body@, |c: char| c == ':'), |c: char| c == ':'),
{
    let mut i: usize = 0;
    while i < body.len() && body[i] == ':'
        invariant
            i <= body@.len(),
            forall|j: int| 0 <= j < i ==> #[trigger] body@[j] == ':',
        decreases body@.len() - i,
    {
        i = i + 1;
    }
    let rest = slice_subrange(body, i, body.len());
    proof {
        lemma_after_lead(body@, |c: char| c == ':', i as int);
        assert(body@.skip(i as int) =~= rest@);
    }
    let mut k: usize = rest.len();
    while k > 0 && rest[k - 1] == ':'
        invariant
            k <= rest@.len(),
            forall|j: int| k <= j < rest@.len() ==> #[trigger] rest@[j] == ':',
        decreases k,
    {
        k = k - 1;
    }
    proof {
        lemma_before_tail(rest@, |c: char| c == ':', k as int);
        assert(rest@.take(k as int) =~= rest@.subrange(0, k as int));
    }
    slice_subrange(rest, 0, k)
}

/// How one cell of an alignment row aligns its column, if it is one.
pub fn cell_align(cell: &str) -> (r: Option<Align>)
    ensures
        match r {
            Some(a) => is_dashes(cell@) && a == align_of(cell@),
            None => !is_dashes(cell@),
        },
{
    let chars = crate::text::chars_of(cell);
    let body = trim(chars.as_slice());
    let d = dashes(body);
    if d.len() < 1 || !only(d, '-') {
        return None;
    }
    if body.len() > 0 && body[body.len() - 1] == ':' {
        if body[0] == ':' {
            Some(Align::Centre)
        } else {
            Some(Align::Right)
        }
    } else {
        Some(Align::Left)
    }
}

/// The alignment row, if this line is one of the right width.
pub fn delimiter(line: &[char], width: usize) -> (r: Option<Vec<Align>>)
    ensures
        match r {
            Some(a) => delimiter_of(line@, width as nat) == Some(a@),
            None => delimiter_of(line@, width as nat) is None,
        },
{
    let cs = match cells(line) {
        Some(cs) => cs,
        None => return None,
    };
    let ghost want = texts(cs@);
    assert(want.len() == cs@.len());
    if cs.len() != width {
        return None;
    }
    let mut out: Vec<Align> = Vec::new();
    let mut i: usize = 0;
    while i < cs.len()
        invariant
            i <= cs@.len(),
            out@.len() == i,
            want == texts(cs@),
            cells_of(line@) == Some(want),
            forall|j: int| 0 <= j < i ==> is_dashes(#[trigger] want[j]),
            forall|j: int| 0 <= j < i ==> #[trigger] out@[j] == align_of(want[j]),
        decreases cs@.len() - i,
    {
        assert(want[i as int] == cs@[i as int]@);
        match cell_align(cs[i].as_str()) {
            Some(a) => out.push(a),
            None => return None,
        }
        i = i + 1;
    }
    assert(out@ =~= want.map_values(|c: Seq<char>| align_of(c)));
    Some(out)
}

/// The columns that each cell of a row takes.
fn measure(cs: &Vec<String>) -> (r: Vec<usize>)
    ensures
        counts(r@) == measures(texts(cs@)),
{
    let mut r: Vec<usize> = Vec::new();
    let mut i: usize = 0;
    while i < cs.len()
        invariant
            i <= cs@.len(),
            r@.len() == i,
            forall|j: int| 0 <= j < i ==> #[trigger] r@[j] == columns_of(cs@[j]@),
        decreases cs@.len() - i,
    {
        r.push(display_width(cs[i].as_str()));
        i = i + 1;
    }
    assert(counts(r@) =~= measures(texts(cs@)));
    r
}

/// Machine numbers as plain ones.
pub open spec fn counts(v: Seq<usize>) -> Seq<nat> {
    v.map_values(|n: usize| n as nat)
}

/// The widest thing in each column, clipped, from the columns that each cell takes.
pub fn widths(header: &Vec<usize>, rows: &Vec<Vec<usize>>) -> (r: Vec<usize>)
    ensures
        counts(r@) == column_widths(
            counts(header@),
            rows@.map_values(|row: Vec<usize>| counts(row@)),
        ),
        forall|i: int| 0 <= i < r@.len() ==> #[trigger] r@[i] <= MAX_CELL,
{
    let ghost hs = counts(header@);
    let ghost rs = rows@.map_values(|row: Vec<usize>| counts(row@));
    let mut r: Vec<usize> = Vec::new();
    let mut i: usize = 0;
    while i < header.len()
        invariant
            i <= header@.len(),
            hs == counts(header@),
            r@.len() == i,
            forall|j: int| 0 <= j < i ==> #[trigger] r@[j] == column_width(hs, seq![], j),
            forall|j: int| 0 <= j < i ==> #[trigger] r@[j] <= MAX_CELL,
        decreases header@.len() - i,
    {
        r.push(if header[i] <= MAX_CELL { header[i] } else { MAX_CELL });
        i = i + 1;
    }
    let mut k: usize = 0;
    assert(rs.take(0) =~= seq![]);
    while k < rows.len()
        invariant
            k <= rows@.len(),
            hs == counts(header@),
            rs == rows@.map_values(|row: Vec<usize>| counts(row@)),
            r@.len() == header@.len(),
            forall|j: int|
                0 <= j < r@.len() ==> #[trigger] r@[j] == column_width(hs, rs.take(k as int), j),
            forall|j: int| 0 <= j < r@.len() ==> #[trigger] r@[j] <= MAX_CELL,
        decreases rows@.len() - k,
    {
        let row = &rows[k];
        let ghost upto = rs.take(k as int);
        let ghost next = rs.take(k + 1);
        assert(next.drop_last() =~= upto);
        assert(next.last() == counts(row@));
        let mut i: usize = 0;
        while i < r.len()
            invariant
                i <= r@.len(),
                r@.len() == header@.len(),
                next.len() > 0,
                next.drop_last() == upto,
                next.last() == counts(row@),
                forall|j: int| 0 <= j < i ==> #[trigger] r@[j] == column_width(hs, next, j),
                forall|j: int|
                    i <= j < r@.len() ==> #[trigger] r@[j] == column_width(hs, upto, j),
                forall|j: int| 0 <= j < r@.len() ==> #[trigger] r@[j] <= MAX_CELL,
            decreases r@.len() - i,
        {
            if i < row.len() {
                let w = if row[i] <= MAX_CELL { row[i] } else { MAX_CELL };
                if r[i] < w {
                    r.set(i, w);
                }
            }
            i = i + 1;
        }
        k = k + 1;
    }
    assert(rs.take(k as int) =~= rs);
    assert(counts(r@) =~= column_widths(hs, rs));
    r
}

/// How wide the columns are together, or `None` once that is past `max`.
pub fn total_within(widths: &Vec<usize>, max: usize) -> (r: Option<usize>)
    requires
        forall|i: int| 0 <= i < widths@.len() ==> #[trigger] widths@[i] <= MAX_CELL,
        max <= MAX_TABLE,
    ensures
        match r {
            Some(n) => n == total_width(counts(widths@)) && n <= max,
            None => total_width(counts(widths@)) > max,
        },
{
    let ghost ws = counts(widths@);
    let mut total: usize = 0;
    let mut i: usize = 0;
    assert(ws.take(0) =~= seq![]);
    while i < widths.len()
        invariant
            i <= widths@.len(),
            ws == counts(widths@),
            max <= MAX_TABLE,
            total <= max,
            total == total_width(ws.take(i as int)),
            forall|i: int| 0 <= i < widths@.len() ==> #[trigger] widths@[i] <= MAX_CELL,
        decreases widths@.len() - i,
    {
        total = total + widths[i] + 2;
        proof {
            assert(ws.take(i + 1).drop_last() =~= ws.take(i as int));
            assert(ws.take(i + 1).last() == widths@[i as int] as nat);
            lemma_total_grows(ws, i + 1);
        }
        i = i + 1;
        if total > max {
            return None;
        }
    }
    assert(ws.take(i as int) =~= ws);
    Some(total)
}

proof fn lemma_total_grows(ws: Seq<nat>, n: int)
    requires
        0 <= n <= ws.len(),
    ensures
        total_width(ws.take(n)) <= total_width(ws),
    decreases ws.len(),
{
    if n == ws.len() {
        assert(ws.take(n) =~= ws);
    } else {
        lemma_total_grows(ws.drop_last(), n);
        assert(ws.drop_last().take(n) =~= ws.take(n));
    }
}

/// Put text that takes `columns` at the end of a row, set against one edge of its column.
pub fn push_set(out: &mut String, cell: &str, taken: usize, width: usize, align: Align)
    ensures
        final(out)@ == old(out)@ + set_against(cell@, taken as nat, width as nat, align),
{
    let ghost before = out@;
    let pad = if taken <= width { width - taken } else { 0 };
    match align {
        Align::Right => {
            push_spaces(out, pad);
            out.push_str(cell);
            assert(out@ =~= before + (spaces(pad as nat) + cell@));
        },
        Align::Centre => {
            push_spaces(out, pad / 2);
            out.push_str(cell);
            push_spaces(out, pad - pad / 2);
            assert(out@ =~= before + (spaces(pad as nat / 2) + cell@ + spaces(
                (pad as nat - pad as nat / 2) as nat,
            )));
        },
        Align::Left => {
            out.push_str(cell);
            push_spaces(out, pad);
            assert(out@ =~= before + (cell@ + spaces(pad as nat)));
        },
    }
}

/// A whole row of a table.
pub fn table_row(cs: &Vec<String>, widths: &Vec<usize>, aligns: &Vec<Align>) -> (r: String)
    requires
        widths@.len() == aligns@.len(),
    ensures
        r@ == set_row(texts(cs@), counts(widths@), aligns@),
{
    let ghost cells = texts(cs@);
    let ghost ws = counts(widths@);
    let mut out = String::new();
    let mut i: usize = 0;
    assert(out@ =~= set_cells(cells, ws, aligns@, 0));
    while i < widths.len()
        invariant
            i <= widths@.len(),
            widths@.len() == aligns@.len(),
            cells == texts(cs@),
            ws == counts(widths@),
            out@ == set_cells(cells, ws, aligns@, i as int),
        decreases widths@.len() - i,
    {
        let ghost before = out@;
        push_spaces(&mut out, 2);
        let none = String::new();
        assert(none@ =~= seq![]);
        let cell = if i < cs.len() {
            assert(cells[i as int] == cs@[i as int]@);
            cs[i].as_str()
        } else {
            none.as_str()
        };
        assert(cell@ == cell_at(cells, i as int));
        let clipped = clip(cell, widths[i]);
        let taken = display_width(clipped.as_str());
        push_set(&mut out, clipped.as_str(), taken, widths[i], aligns[i]);
        i = i + 1;
        assert(out@ == set_cells(cells, ws, aligns@, i as int));
    }
    let chars = crate::text::chars_of(out.as_str());
    string_of(trim_end(chars.as_slice()))
}

/// The rule under a header of columns that are `total` wide together.
pub fn header_rule(total: usize) -> (r: String)
    requires
        total >= 2,
    ensures
        r@ == spaces(2) + repeated('\u{2500}', (total - 2) as nat),
{
    let mut out = String::new();
    push_spaces(&mut out, 2);
    push_repeated(&mut out, '\u{2500}', total - 2);
    assert(out@ =~= spaces(2) + repeated('\u{2500}', (total - 2) as nat));
    out
}

/// Draw one row with a run on it under what is already drawn.
fn push_row(text: String, lines: &mut Vec<String>)
    ensures
        texts(final(lines)@) == texts(old(lines)@).push(text@),
{
    lines.push(text);
    assert(texts(lines@) =~= texts(old(lines)@).push(text@));
}

/// One value of a record, after its label.
fn record_entry(
    name: &str,
    label: usize,
    cell: &str,
    lines: &mut Vec<String>,
    marks: &mut Vec<Mark>,
)
    ensures
        drawn_after(
            texts(old(lines)@),
            spans(old(marks)@),
            texts(final(lines)@),
            spans(final(marks)@),
            row_of(entry(name@, label as nat, cell@), false),
        ),
{
    let row = lines.len();
    let ghost marks0 = spans(marks@);
    let ghost empty: Seq<char> = seq![];
    let mut text = String::new();
    push_spaces(&mut text, 2);
    let from = bytes_in(text.as_str());
    let ghost text1 = text@;
    let clipped = clip(name, label);
    let ghost n = clipped@;
    text.push_str(clipped.as_str());
    proof {
        assert(text1 =~= empty + spaces(2));
        lemma_row_begun(empty, marks0, text1, row as int, spaces(2));
        lemma_row_begun(text1, marks0, text@, row as int, n);
        lemma_marked(text1, marks0, text@, marks0, row as int, plain(n), "Markdown.Heading");
    }
    mark_since(row, from, "Markdown.Heading", &text, marks);
    let ghost text2 = text@;
    let ghost marks2 = spans(marks@);
    let taken = display_width(clipped.as_str());
    push_spaces(&mut text, if taken <= label { label - taken } else { 0 });
    push_spaces(&mut text, 2);
    text.push_str(cell);
    proof {
        let rest = spaces(padding(columns_of(n), label as nat)) + spaces(2) + cell@;
        assert(text@ =~= text2 + rest);
        lemma_row_begun(text2, marks2, text@, row as int, rest);
        let lead = join(plain(spaces(2)), marked(plain(n), "Markdown.Heading"));
        lemma_row_after(empty, marks0, text1, marks0, text2, marks2, row as int, plain(spaces(2)),
            marked(plain(n), "Markdown.Heading"));
        lemma_row_after(empty, marks0, text2, marks2, text@, marks2, row as int, lead, plain(rest));
        lemma_row_whole(marks0, text@, marks2, row as int, entry(name@, label as nat, cell@));
        assert(texts(lines@).len() == row);
        assert(texts(lines@).push(text@) =~= texts(lines@) + seq![text@]);
    }
    push_row(text, lines);
}

/// The widest label, clipped, from the columns that each takes.
pub fn label_columns(header: &Vec<String>) -> (r: usize)
    ensures
        r == label_width(texts(header@)),
{
    let ghost hs = texts(header@);
    let mut r: usize = 0;
    let mut i: usize = 0;
    assert(hs.take(0) =~= seq![]);
    while i < header.len()
        invariant
            i <= header@.len(),
            hs == texts(header@),
            r == label_width(hs.take(i as int)),
        decreases header@.len() - i,
    {
        let w = display_width(header[i].as_str());
        let w = if w <= MAX_CELL { w } else { MAX_CELL };
        proof {
            assert(hs.take(i + 1).drop_last() =~= hs.take(i as int));
            assert(hs.take(i + 1).last() == header@[i as int]@);
        }
        if r < w {
            r = w;
        }
        i = i + 1;
    }
    assert(hs.take(i as int) =~= hs);
    r
}

/// A table too wide to line up, as one block per row. Columns running off the right edge would
/// mean guessing which value belongs to which label.
pub fn records(
    header: &Vec<String>,
    rows: &Vec<Vec<String>>,
    lines: &mut Vec<String>,
    marks: &mut Vec<Mark>,
)
    ensures
        drawn_after(
            texts(old(lines)@),
            spans(old(marks)@),
            texts(final(lines)@),
            spans(final(marks)@),
            records_of(texts(header@), cell_texts(rows@), rows@.len() as int),
        ),
{
    let label = label_columns(header);
    let ghost hs = texts(header@);
    let ghost rs = cell_texts(rows@);
    let ghost rows0 = texts(lines@);
    let ghost marks0 = spans(marks@);
    let mut n: usize = 0;
    proof {
        lemma_drawn_nothing(rows0, marks0, false);
    }
    while n < rows.len()
        invariant
            n <= rows@.len(),
            label == label_width(hs),
            hs == texts(header@),
            rs == cell_texts(rows@),
            drawn_after(rows0, marks0, texts(lines@), spans(marks@), records_of(hs, rs, n as int)),
        decreases rows@.len() - n,
    {
        let ghost above = records_of(hs, rs, n as int);
        let ghost rows1 = texts(lines@);
        let ghost marks1 = spans(marks@);
        if n > 0 {
            push_row(String::new(), lines);
            proof {
                lemma_blank_row(rows1, marks1, texts(lines@));
                lemma_drawn_after(rows0, marks0, rows1, marks1, texts(lines@), marks1, above,
                    row_of(plain(seq![]), false));
            }
        }
        let ghost gap = if n > 0 { stack(above, row_of(plain(seq![]), false)) } else { above };
        let ghost rows2 = texts(lines@);
        let ghost marks2 = spans(marks@);
        let row = &rows[n];
        let ghost cs = texts(row@);
        assert(rs[n as int] == cs);
        let mut i: usize = 0;
        proof {
            lemma_drawn_nothing(rows2, marks2, false);
        }
        while i < row.len()
            invariant
                i <= row@.len(),
                label == label_width(hs),
                hs == texts(header@),
                cs == texts(row@),
                drawn_after(rows2, marks2, texts(lines@), spans(marks@), entries(hs, cs, i as int)),
            decreases row@.len() - i,
        {
            let ghost rows3 = texts(lines@);
            let ghost marks3 = spans(marks@);
            let none = String::new();
            assert(none@ =~= seq![]);
            let name = if i < header.len() {
                assert(hs[i as int] == header@[i as int]@);
                header[i].as_str()
            } else {
                none.as_str()
            };
            assert(name@ == cell_at(hs, i as int));
            assert(cs[i as int] == row@[i as int]@);
            record_entry(name, label, row[i].as_str(), lines, marks);
            proof {
                lemma_drawn_after(rows2, marks2, rows3, marks3, texts(lines@), spans(marks@),
                    entries(hs, cs, i as int),
                    row_of(entry(cell_at(hs, i as int), label_width(hs), cs[i as int]), false));
            }
            i = i + 1;
        }
        proof {
            lemma_drawn_after(rows0, marks0, rows2, marks2, texts(lines@), spans(marks@), gap,
                entries(hs, cs, cs.len() as int));
        }
        n = n + 1;
    }
}

/// The texts of some rows of cells.
pub open spec fn cell_texts(rows: Seq<Vec<String>>) -> Seq<Seq<Seq<char>>> {
    rows.map_values(|r: Vec<String>| texts(r@))
}

/// The texts of some lines.
pub open spec fn line_texts(raw: Seq<&[char]>) -> Seq<Seq<char>> {
    raw.map_values(|l: &[char]| l@)
}

/// Whether a line has its newline.
fn whole(line: &[char]) -> (r: bool)
    ensures
        r == is_whole(line@),
{
    line.len() > 0 && line[line.len() - 1] == '\n'
}

/// The rows under a header, up to the first line that is not one. The last line of all counts
/// only once it is whole: half a row would be measured at half its eventual width and shift every
/// column when it finished.
fn rows_under(raw: &Vec<&[char]>, at: usize) -> (r: Vec<Vec<String>>)
    requires
        at <= raw@.len(),
    ensures
        cell_texts(r@) == table_rows(line_texts(raw@).skip(at as int)),
        at + r@.len() <= raw@.len(),
{
    let ghost ls = line_texts(raw@);
    let ghost want = table_rows(ls.skip(at as int));
    let mut r: Vec<Vec<String>> = Vec::new();
    let mut i: usize = at;
    proof {
        assert(cell_texts(r@) + want =~= want);
    }
    while i < raw.len()
        invariant
            at <= i <= raw@.len(),
            r@.len() == i - at,
            ls == line_texts(raw@),
            want == table_rows(ls.skip(at as int)),
            cell_texts(r@) + table_rows(ls.skip(i as int)) == want,
        decreases raw@.len() - i,
    {
        let ghost rest = ls.skip(i as int);
        assert(rest[0] == raw@[i as int]@);
        if !whole(raw[i]) && i + 1 == raw.len() {
            assert(table_rows(rest) =~= seq![]);
            assert(cell_texts(r@) + Seq::<Seq<Seq<char>>>::empty() =~= cell_texts(r@));
            return r;
        }
        match cells(raw[i]) {
            Some(row) => {
                let ghost before = cell_texts(r@);
                r.push(row);
                proof {
                    assert(cell_texts(r@) =~= before.push(texts(row@)));
                    assert(rest.skip(1) =~= ls.skip(i + 1));
                    assert(table_rows(rest) == seq![texts(row@)] + table_rows(rest.skip(1)));
                    assert(cell_texts(r@) + table_rows(rest.skip(1)) =~= before + table_rows(rest));
                }
            },
            None => {
                assert(table_rows(rest) =~= seq![]);
                assert(cell_texts(r@) + Seq::<Seq<Seq<char>>>::empty() =~= cell_texts(r@));
                return r;
            },
        }
        i = i + 1;
    }
    assert(ls.skip(i as int) =~= seq![]);
    assert(cell_texts(r@) + Seq::<Seq<Seq<char>>>::empty() =~= cell_texts(r@));
    r
}

/// A table set in columns: its labels, a rule under them, and a row of text for each row.
fn set_columns(
    header: &Vec<String>,
    rows: &Vec<Vec<String>>,
    ws: &Vec<usize>,
    aligns: &Vec<Align>,
    total: usize,
    lines: &mut Vec<String>,
    marks: &mut Vec<Mark>,
)
    requires
        ws@.len() == aligns@.len(),
        total >= 2,
        total == total_width(counts(ws@)),
    ensures
        drawn_after(
            texts(old(lines)@),
            spans(old(marks)@),
            texts(final(lines)@),
            spans(final(marks)@),
            columns(texts(header@), cell_texts(rows@), counts(ws@), aligns@),
        ),
{
    let ghost rows0 = texts(lines@);
    let ghost marks0 = spans(marks@);
    let ghost empty: Seq<char> = seq![];

    let head = table_row(header, ws, aligns);
    let ghost head_run = marked(plain(head@), "Markdown.Heading");
    proof {
        lemma_marked_row(rows0, marks0, head@, "Markdown.Heading");
        assert(texts(lines@).len() == lines@.len());
    }
    mark_since(lines.len(), 0, "Markdown.Heading", &head, marks);
    push_row(head, lines);
    let ghost rows1 = texts(lines@);
    let ghost marks1 = spans(marks@);

    let line = header_rule(total);
    let ghost rule_run = marked(plain(line@), "Markdown.Rule");
    proof {
        lemma_marked_row(rows1, marks1, line@, "Markdown.Rule");
        assert(texts(lines@).len() == lines@.len());
    }
    mark_since(lines.len(), 0, "Markdown.Rule", &line, marks);
    push_row(line, lines);
    let ghost rows2 = texts(lines@);
    let ghost marks2 = spans(marks@);
    proof {
        lemma_drawn_after(rows0, marks0, rows1, marks1, rows2, marks2, row_of(head_run, false),
            row_of(rule_run, false));
    }

    let ghost rs = cell_texts(rows@);
    let ghost set = rs.map_values(|r: Seq<Seq<char>>| set_row(r, counts(ws@), aligns@));
    let mut i: usize = 0;
    assert(rows2 =~= rows2 + set.take(0));
    while i < rows.len()
        invariant
            i <= rows@.len(),
            ws@.len() == aligns@.len(),
            rs == cell_texts(rows@),
            set == rs.map_values(|r: Seq<Seq<char>>| set_row(r, counts(ws@), aligns@)),
            texts(lines@) == rows2 + set.take(i as int),
            spans(marks@) == marks2,
        decreases rows@.len() - i,
    {
        let text = table_row(&rows[i], ws, aligns);
        proof {
            assert(rs[i as int] == texts(rows@[i as int]@));
            assert(set[i as int] == text@);
        }
        push_row(text, lines);
        i = i + 1;
        assert(rows2 + set.take(i as int) =~= (rows2 + set.take(i - 1)).push(set[i - 1]));
    }
    proof {
        assert(set.take(i as int) =~= set);
        let body = body_rows(rs, counts(ws@), aligns@);
        assert(moved(body.marks, rows2.len() as int, 0) =~= seq![]);
        assert(marks2 + Seq::<Span>::empty() =~= marks2);
        assert(drawn_after(rows2, marks2, texts(lines@), spans(marks@), body));
        lemma_drawn_after(rows0, marks0, rows2, marks2, texts(lines@), spans(marks@),
            stack(row_of(head_run, false), row_of(rule_run, false)), body);
    }
}

/// How many lines the table takes that starts with line `at`, if there is one.
pub fn table_len(raw: &Vec<&[char]>, at: usize) -> (r: Option<usize>)
    ensures
        match r {
            Some(n) => {
                let rest = line_texts(raw@).skip(at as int);
                &&& at < raw@.len()
                &&& is_table(rest)
                &&& n == 2 + table_rows(rest.skip(2)).len()
                &&& at + n <= raw@.len()
            },
            None => at >= raw@.len() || !is_table(line_texts(raw@).skip(at as int)),
        },
{
    let ghost ls = line_texts(raw@);
    let ghost rest = ls.skip(at as int);
    if at >= raw.len() || raw.len() - at < 2 {
        return None;
    }
    assert(rest[0] == raw@[at as int]@);
    assert(rest[1] == raw@[at + 1]@);
    let header = match cells(raw[at]) {
        Some(h) => h,
        None => return None,
    };
    assert(texts(header@).len() == header@.len());
    if delimiter(raw[at + 1], header.len()).is_none() {
        return None;
    }
    let rows = rows_under(raw, at + 2);
    assert(rest.skip(2) =~= ls.skip(at + 2));
    assert(cell_texts(rows@).len() == rows@.len());
    Some(2 + rows.len())
}

/// Draw the table that starts with line `at`, if there is one, and say how many lines it took.
///
/// It is only a table once its alignment row has arrived. Before that it is a row of text with
/// bars in it. No table starts past the last line.
pub fn table(
    raw: &Vec<&[char]>,
    at: usize,
    lines: &mut Vec<String>,
    marks: &mut Vec<Mark>,
) -> (r: Option<usize>)
    ensures
        match r {
            Some(n) => {
                let rest = line_texts(raw@).skip(at as int);
                &&& at < raw@.len()
                &&& is_table(rest)
                &&& n == 2 + table_rows(rest.skip(2)).len()
                &&& at + n <= raw@.len()
                &&& drawn_after(
                    texts(old(lines)@),
                    spans(old(marks)@),
                    texts(final(lines)@),
                    spans(final(marks)@),
                    table_of(rest),
                )
            },
            None => (at >= raw@.len() || !is_table(line_texts(raw@).skip(at as int)))
                && *final(lines) == *old(lines) && *final(marks) == *old(marks),
        },
{
    let ghost ls = line_texts(raw@);
    let ghost rest = ls.skip(at as int);
    if at >= raw.len() || raw.len() - at < 2 {
        return None;
    }
    assert(rest[0] == raw@[at as int]@);
    assert(rest[1] == raw@[at + 1]@);
    let header = match cells(raw[at]) {
        Some(h) => h,
        None => return None,
    };
    let ghost hs = texts(header@);
    assert(hs.len() == header@.len());
    let aligns = match delimiter(raw[at + 1], header.len()) {
        Some(a) => a,
        None => return None,
    };
    let rows = rows_under(raw, at + 2);
    let ghost rs = cell_texts(rows@);
    assert(rest.skip(2) =~= ls.skip(at + 2));
    assert(rs.len() == rows@.len());

    let measured = measure(&header);
    let mut row_widths: Vec<Vec<usize>> = Vec::new();
    let mut i: usize = 0;
    while i < rows.len()
        invariant
            i <= rows@.len(),
            row_widths@.len() == i,
            forall|j: int|
                0 <= j < i ==> counts((#[trigger] row_widths@[j])@) == measures(texts(rows@[j]@)),
        decreases rows@.len() - i,
    {
        row_widths.push(measure(&rows[i]));
        i = i + 1;
    }
    let ws = widths(&measured, &row_widths);
    proof {
        assert(row_widths@.map_values(|row: Vec<usize>| counts(row@)) =~= rs.map_values(
            |r: Seq<Seq<char>>| measures(r),
        ));
        assert(counts(ws@).len() == hs.len());
    }

    // Too wide to line up, so stop pretending: a table with the right-hand columns off the edge
    // is read by guessing which is which.
    match total_within(&ws, MAX_TABLE) {
        None => {
            records(&header, &rows, lines, marks);
        },
        Some(total) => {
            proof {
                assert(counts(ws@).len() >= 1);
            }
            set_columns(&header, &rows, &ws, &aligns, total, lines, marks);
        },
    }
    Some(2 + rows.len())
}

/// What is drawn so far, once `d` has been put under what was there before.
pub open spec fn drawn_after(
    rows0: Seq<Seq<char>>,
    marks0: Seq<Span>,
    rows: Seq<Seq<char>>,
    marks: Seq<Span>,
    d: Drawn,
) -> bool {
    &&& rows == rows0 + d.rows
    &&& marks == marks0 + moved(d.marks, rows0.len() as int, 0)
}

pub proof fn lemma_drawn_nothing(rows: Seq<Seq<char>>, marks: Seq<Span>, fence: bool)
    ensures
        drawn_after(rows, marks, rows, marks, nothing(fence)),
{
    assert(rows =~= rows + Seq::<Seq<char>>::empty());
    assert(moved(nothing(fence).marks, rows.len() as int, 0) =~= seq![]);
    assert(marks =~= marks + Seq::<Span>::empty());
}

pub proof fn lemma_drawn_after(
    rows0: Seq<Seq<char>>,
    marks0: Seq<Span>,
    rows1: Seq<Seq<char>>,
    marks1: Seq<Span>,
    rows2: Seq<Seq<char>>,
    marks2: Seq<Span>,
    a: Drawn,
    b: Drawn,
)
    requires
        drawn_after(rows0, marks0, rows1, marks1, a),
        drawn_after(rows1, marks1, rows2, marks2, b),
    ensures
        drawn_after(rows0, marks0, rows2, marks2, stack(a, b)),
{
    let n = rows0.len() as int;
    let k = a.rows.len() as int;
    lemma_moved_concat(a.marks, moved(b.marks, k, 0), n, 0);
    lemma_moved_twice(b.marks, k, 0, n, 0);
    assert(rows2 =~= rows0 + stack(a, b).rows);
    assert(marks2 =~= marks0 + moved(stack(a, b).marks, n, 0));
}

proof fn lemma_blank_row(rows: Seq<Seq<char>>, marks: Seq<Span>, after: Seq<Seq<char>>)
    requires
        after == rows.push(seq![]),
    ensures
        drawn_after(rows, marks, after, marks, row_of(plain(seq![]), false)),
{
    let d = row_of(plain(seq![]), false);
    assert(after =~= rows + d.rows);
    assert(moved(d.marks, rows.len() as int, 0) =~= seq![]);
    assert(marks =~= marks + Seq::<Span>::empty());
}

/// A row with one mark over the whole of it.
pub proof fn lemma_marked_row(
    rows: Seq<Seq<char>>,
    marks: Seq<Span>,
    text: Seq<char>,
    group: &'static str,
)
    ensures
        forall|fence: bool| #[trigger]
            drawn_after(
                rows,
                marks,
                rows.push(text),
                marks.push(
                    Span {
                        row: rows.len() as int,
                        from: 0,
                        to: width_in_bytes(text) as int,
                        group,
                    },
                ),
                row_of(marked(plain(text), group), fence),
            ),
{
    let run = marked(plain(text), group);
    let m = Span { row: rows.len() as int, from: 0, to: width_in_bytes(text) as int, group };
    assert(rows.push(text) =~= rows + seq![text]);
    assert(marks.push(m) =~= marks + moved(run.marks, rows.len() as int, 0));
}

} // verus!
