//! No text draws more rows than it has characters, and no mark leaves its row.

use crate::markdown::lines::{are_lines, joined, lemma_joined_concat};
use crate::markdown::model::{
    bare, block, block_len, body_rows, cell_at, cells_of, column_widths, columns, delimiter_of,
    draw, entries, entry, heading_of, indented_of, inline_of, is_rule, is_table, is_whole, item_of, join,
    label_width, language, line_of, marked, measures, padding, plain, quote_of, records_of,
    repeated, row_of, set_row, single, spaces, stack, table_of, table_rows, table_rule, token,
    total_width, unbarred, Drawn, Run, Span, Token, MAX_TABLE,
};
use crate::measure::{clip_of, columns_of};
use crate::text::{
    begins, lemma_bytes_concat, lemma_lead_stop, lemma_position_found, lemma_tail_stop, position_of,
    split_on, trim_end_of, trim_of, trim_start_of, width_in_bytes,
};
use vstd::prelude::*;

verus! {

proof fn lemma_split_len(s: Seq<char>, c: char)
    ensures
        split_on(s, c).len() >= 1,
        split_on(s, c).len() <= s.len() + 1,
        s.len() > 0 && s[0] != c ==> split_on(s, c).len() <= s.len(),
    decreases s.len(),
{
    lemma_position_found(s, c);
    let i = position_of(s, c);
    if i < s.len() {
        lemma_split_len(s.skip(i + 1), c);
    }
}

pub proof fn lemma_trim_len(s: Seq<char>)
    ensures
        trim_of(s).len() <= trim_start_of(s).len() <= s.len(),
        trim_end_of(s).len() <= s.len(),
{
    let a = lemma_lead_stop(s, |c: char| crate::text::is_white(c));
    let b = lemma_tail_stop(trim_start_of(s), |c: char| crate::text::is_white(c));
    let d = lemma_tail_stop(s, |c: char| crate::text::is_white(c));
}

pub proof fn lemma_bare_len(line: Seq<char>)
    ensures
        bare(line).len() <= line.len(),
        is_whole(line) ==> bare(line).len() < line.len(),
{
    let p = |c: char| c == '\n' || c == '\r';
    let i = lemma_tail_stop(line, p);
    if is_whole(line) && i == line.len() {
        assert(p(line[i - 1]));
    }
}

/// A whole line has room for more characters than cells.
proof fn lemma_cells_len(line: Seq<char>)
    requires
        is_whole(line),
        cells_of(line) is Some,
    ensures
        cells_of(line)->0.len() + 1 <= line.len(),
{
    let t = trim_of(bare(line));
    lemma_bare_len(line);
    lemma_trim_len(bare(line));
    let u = unbarred(t);
    lemma_split_len(u, '|');
    if begins(t, seq!['|']) {
    } else {
        assert(t.len() > 0);
        if t[0] == '|' {
            assert(t.take(1) =~= seq!['|']);
        }
        if u.len() > 0 {
            assert(u[0] == t[0]);
        }
    }
}

/// Each row of a table comes from a line of its own, with more characters than the row has cells.
pub proof fn lemma_table_rows(raw: Seq<Seq<char>>)
    requires
        are_lines(raw),
    ensures
        table_rows(raw).len() <= raw.len(),
        forall|k: int|
            0 <= k < table_rows(raw).len() ==> (#[trigger] table_rows(raw)[k]).len() + 1
                <= raw[k].len(),
        forall|k: int|
            0 <= k < table_rows(raw).len() ==> cells_of(#[trigger] raw[k]) == Some(
                table_rows(raw)[k],
            ),
        forall|k: int| 0 <= k < table_rows(raw).len() ==> is_whole(#[trigger] raw[k]),
    decreases raw.len(),
{
    let rows = table_rows(raw);
    if raw.len() == 0 || (raw.len() == 1 && !is_whole(raw[0])) {
    } else {
        assert(is_whole(raw[0]));
        if cells_of(raw[0]) is Some {
            let tail = raw.skip(1);
            assert(are_lines(tail)) by {
                assert forall|i: int| 0 <= i < tail.len() implies (#[trigger] tail[i]).len() > 0 by {
                    assert(tail[i] == raw[i + 1]);
                }
                assert forall|i: int| 0 <= i < tail.len() - 1 implies is_whole(#[trigger] tail[i]) by {
                    assert(tail[i] == raw[i + 1]);
                }
            }
            lemma_table_rows(tail);
            lemma_cells_len(raw[0]);
            assert(rows == seq![cells_of(raw[0])->0] + table_rows(tail));
            assert forall|k: int| 0 <= k < rows.len() implies (#[trigger] rows[k]).len() + 1
                <= raw[k].len() by {
                if k > 0 {
                    assert(rows[k] == table_rows(tail)[k - 1]);
                    assert(tail[k - 1] == raw[k]);
                }
            }
            assert forall|k: int| 0 <= k < rows.len() implies cells_of(#[trigger] raw[k]) == Some(
                rows[k],
            ) by {
                if k > 0 {
                    assert(rows[k] == table_rows(tail)[k - 1]);
                    assert(tail[k - 1] == raw[k]);
                }
            }
            assert forall|k: int| 0 <= k < rows.len() implies is_whole(#[trigger] raw[k]) by {
                if k > 0 {
                    assert(tail[k - 1] == raw[k]);
                }
            }
        }
    }
}

proof fn lemma_entries_len(header: Seq<Seq<char>>, row: Seq<Seq<char>>, n: int)
    requires
        n >= 0,
    ensures
        entries(header, row, n).rows.len() == n,
    decreases n,
{
    if n > 0 {
        lemma_entries_len(header, row, n - 1);
    }
}

proof fn lemma_records_len(
    header: Seq<Seq<char>>,
    rows: Seq<Seq<Seq<char>>>,
    raw: Seq<Seq<char>>,
    n: int,
)
    requires
        0 <= n <= rows.len(),
        rows.len() <= raw.len(),
        forall|k: int| 0 <= k < rows.len() ==> (#[trigger] rows[k]).len() + 1 <= raw[k].len(),
    ensures
        records_of(header, rows, n).rows.len() <= joined(raw.take(n)).len(),
    decreases n,
{
    if n > 0 {
        lemma_records_len(header, rows, raw, n - 1);
        lemma_entries_len(header, rows[n - 1], rows[n - 1].len() as int);
        assert(raw.take(n).drop_last() =~= raw.take(n - 1));
        assert(raw.take(n).last() == raw[n - 1]);
    }
}

pub proof fn lemma_joined_at_least(raw: Seq<Seq<char>>)
    requires
        forall|i: int| 0 <= i < raw.len() ==> (#[trigger] raw[i]).len() > 0,
    ensures
        joined(raw).len() >= raw.len(),
    decreases raw.len(),
{
    if raw.len() > 0 {
        let a = raw.drop_last();
        assert forall|i: int| 0 <= i < a.len() implies (#[trigger] a[i]).len() > 0 by {
            assert(a[i] == raw[i]);
        }
        lemma_joined_at_least(a);
    }
}

pub proof fn lemma_lines_skip(raw: Seq<Seq<char>>, n: int)
    requires
        are_lines(raw),
        0 <= n <= raw.len(),
    ensures
        are_lines(raw.skip(n)),
        are_lines(raw.take(n)),
{
    let a = raw.skip(n);
    let b = raw.take(n);
    assert forall|i: int| 0 <= i < a.len() implies (#[trigger] a[i]).len() > 0 by {
        assert(a[i] == raw[i + n]);
    }
    assert forall|i: int| 0 <= i < a.len() - 1 implies is_whole(#[trigger] a[i]) by {
        assert(a[i] == raw[i + n]);
    }
    assert forall|i: int| 0 <= i < b.len() implies (#[trigger] b[i]).len() > 0 by {
        assert(b[i] == raw[i]);
    }
    assert forall|i: int| 0 <= i < b.len() - 1 implies is_whole(#[trigger] b[i]) by {
        assert(b[i] == raw[i]);
    }
}

/// A block takes at least one line and no more than there are.
pub proof fn lemma_block_len(raw: Seq<Seq<char>>, fence: bool)
    requires
        are_lines(raw),
        raw.len() > 0,
    ensures
        1 <= block_len(raw, fence) <= raw.len(),
{
    if !fence && is_table(raw) {
        lemma_lines_skip(raw, 2);
        lemma_table_rows(raw.skip(2));
    }
}

/// A block draws no more rows than its lines have characters.
proof fn lemma_block_rows(raw: Seq<Seq<char>>, fence: bool)
    requires
        are_lines(raw),
        raw.len() > 0,
    ensures
        block(raw, fence).rows.len() <= joined(raw.take(block_len(raw, fence))).len(),
{
    lemma_block_len(raw, fence);
    let n = block_len(raw, fence);
    let own = raw.take(n);
    lemma_lines_skip(raw, n);
    lemma_joined_at_least(own);
    if !fence && is_table(raw) {
        let header = cells_of(raw[0])->0;
        let aligns = delimiter_of(raw[1], header.len())->0;
        let tail = raw.skip(2);
        let rows = table_rows(tail);
        lemma_lines_skip(raw, 2);
        lemma_table_rows(tail);
        let ws = column_widths(
            measures(header),
            rows.map_values(|r: Seq<Seq<char>>| measures(r)),
        );
        if total_width(ws) > MAX_TABLE {
            lemma_records_len(header, rows, tail, rows.len() as int);
            assert(own =~= raw.take(2) + tail.take(rows.len() as int));
            lemma_joined_concat(raw.take(2), tail.take(rows.len() as int));
        } else {
            assert(columns(header, rows, ws, aligns).rows.len() == 2 + rows.len());
        }
    } else {
        assert(single(raw[0], fence).rows.len() <= 1);
    }
}

/// A text draws no more rows than it has characters.
pub proof fn lemma_draw_rows(raw: Seq<Seq<char>>, fence: bool)
    requires
        are_lines(raw),
    ensures
        draw(raw, fence).rows.len() <= joined(raw).len(),
    decreases raw.len(),
{
    if raw.len() > 0 {
        lemma_block_len(raw, fence);
        lemma_block_rows(raw, fence);
        let n = block_len(raw, fence);
        let b = block(raw, fence);
        lemma_lines_skip(raw, n);
        lemma_draw_rows(raw.skip(n), b.fence);
        assert(raw =~= raw.take(n) + raw.skip(n));
        lemma_joined_concat(raw.take(n), raw.skip(n));
    } else {
        assert(block_len(raw, fence) == 1);
    }
}

/// Whether one character of a text ends and the next begins `at` bytes into it.
pub open spec fn is_edge(text: Seq<char>, at: int) -> bool {
    exists|k: int| 0 <= k <= text.len() && #[trigger] width_in_bytes(text.take(k)) == at
}

/// Whether a mark lies inside the text of its row, between whole characters.
pub open spec fn fits(m: Span, text: Seq<char>) -> bool {
    &&& 0 <= m.from <= m.to <= width_in_bytes(text)
    &&& is_edge(text, m.from)
    &&& is_edge(text, m.to)
}

/// Every mark of a run lies on the run.
pub open spec fn run_inside(r: Run) -> bool {
    forall|i: int|
        0 <= i < r.marks.len() ==> (#[trigger] r.marks[i]).row == 0 && fits(r.marks[i], r.text)
}

/// Every mark of a drawing lies on one of its rows, and the marks come row by row.
pub open spec fn inside(d: Drawn) -> bool {
    &&& forall|i: int|
        0 <= i < d.marks.len() ==> 0 <= (#[trigger] d.marks[i]).row < d.rows.len() && fits(
            d.marks[i],
            d.rows[d.marks[i].row],
        )
    &&& forall|i: int, j: int|
        0 <= i < j < d.marks.len() ==> (#[trigger] d.marks[i]).row <= (#[trigger] d.marks[j]).row
}

/// The characters of a text end at the same places whatever follows it.
proof fn lemma_edge_before(a: Seq<char>, b: Seq<char>, at: int)
    requires
        is_edge(a, at),
    ensures
        is_edge(a + b, at),
{
    let k = choose|k: int| 0 <= k <= a.len() && #[trigger] width_in_bytes(a.take(k)) == at;
    assert((a + b).take(k) =~= a.take(k));
}

/// What stands before a text moves the places where its characters end.
proof fn lemma_edge_after(a: Seq<char>, b: Seq<char>, at: int)
    requires
        is_edge(b, at),
    ensures
        is_edge(a + b, at + width_in_bytes(a)),
{
    let k = choose|k: int| 0 <= k <= b.len() && #[trigger] width_in_bytes(b.take(k)) == at;
    assert((a + b).take(a.len() + k) =~= a + b.take(k));
    lemma_bytes_concat(a, b.take(k));
}

proof fn lemma_ends_are_edges(a: Seq<char>)
    ensures
        is_edge(a, 0),
        is_edge(a, width_in_bytes(a) as int),
{
    let none: Seq<char> = seq![];
    lemma_bytes_concat(none, none);
    assert(none + none =~= none);
    assert(a.take(0) =~= none);
    assert(width_in_bytes(a.take(0)) == 0);
    assert(a.take(a.len() as int) =~= a);
}

proof fn lemma_join_inside(a: Run, b: Run)
    requires
        run_inside(a),
        run_inside(b),
    ensures
        run_inside(join(a, b)),
{
    lemma_bytes_concat(a.text, b.text);
    let j = join(a, b);
    assert forall|i: int| 0 <= i < j.marks.len() implies (#[trigger] j.marks[i]).row == 0 && fits(
        j.marks[i],
        j.text,
    ) by {
        if i < a.marks.len() {
            let m = a.marks[i];
            assert(j.marks[i] == m);
            lemma_edge_before(a.text, b.text, m.from);
            lemma_edge_before(a.text, b.text, m.to);
        } else {
            let m = b.marks[i - a.marks.len()];
            assert(m.row == 0 && fits(m, b.text));
            lemma_edge_after(a.text, b.text, m.from);
            lemma_edge_after(a.text, b.text, m.to);
        }
    }
}

proof fn lemma_marked_inside(a: Run, group: &'static str)
    requires
        run_inside(a),
    ensures
        run_inside(marked(a, group)),
{
    let j = marked(a, group);
    lemma_ends_are_edges(a.text);
    assert forall|i: int| 0 <= i < j.marks.len() implies (#[trigger] j.marks[i]).row == 0 && fits(
        j.marks[i],
        j.text,
    ) by {
        if i < a.marks.len() {
            assert(j.marks[i] == a.marks[i]);
        }
    }
}

proof fn lemma_inline_inside(s: Seq<char>)
    ensures
        run_inside(inline_of(s)),
    decreases s.len(),
{
    if s.len() > 0 {
        match token(s) {
            Token::Code(e) => if 1 <= e < s.len() {
                lemma_inline_inside(s.skip(e + 1));
                lemma_marked_inside(plain(s.subrange(1, e)), "Markdown.Code");
                lemma_join_inside(
                    marked(plain(s.subrange(1, e)), "Markdown.Code"),
                    inline_of(s.skip(e + 1)),
                );
            },
            Token::Strike(e) => if 2 <= e && e + 2 <= s.len() {
                lemma_inline_inside(s.skip(e + 2));
                lemma_inline_inside(s.subrange(2, e));
                lemma_marked_inside(inline_of(s.subrange(2, e)), "Markdown.Strike");
                lemma_join_inside(
                    marked(inline_of(s.subrange(2, e)), "Markdown.Strike"),
                    inline_of(s.skip(e + 2)),
                );
            },
            Token::Bold(e) => if 2 <= e && e + 2 <= s.len() {
                lemma_inline_inside(s.skip(e + 2));
                lemma_inline_inside(s.subrange(2, e));
                lemma_marked_inside(inline_of(s.subrange(2, e)), "Markdown.Bold");
                lemma_join_inside(
                    marked(inline_of(s.subrange(2, e)), "Markdown.Bold"),
                    inline_of(s.skip(e + 2)),
                );
            },
            Token::Italic(e) => if 1 <= e < s.len() {
                lemma_inline_inside(s.skip(e + 1));
                lemma_inline_inside(s.subrange(1, e));
                lemma_marked_inside(inline_of(s.subrange(1, e)), "Markdown.Italic");
                lemma_join_inside(
                    marked(inline_of(s.subrange(1, e)), "Markdown.Italic"),
                    inline_of(s.skip(e + 1)),
                );
            },
            Token::Link(close, e) => if 1 <= close < s.len() && 1 <= e < s.len() {
                lemma_inline_inside(s.skip(e + 1));
                lemma_marked_inside(plain(s.subrange(1, close)), "Markdown.Link");
                lemma_join_inside(
                    marked(plain(s.subrange(1, close)), "Markdown.Link"),
                    inline_of(s.skip(e + 1)),
                );
            },
            Token::Plain => {
                lemma_inline_inside(s.skip(1));
                lemma_join_inside(plain(seq![s[0]]), inline_of(s.skip(1)));
            },
        }
    }
}

proof fn lemma_line_inside(line: Seq<char>)
    ensures
        run_inside(line_of(line)),
{
    let t = trim_start_of(line);
    let indent = (width_in_bytes(line) - width_in_bytes(t)) as nat;
    if indented_of(line) is Some {
        lemma_marked_inside(plain(spaces(2) + indented_of(line)->0), "Markdown.Code");
    } else if is_rule(t) {
        lemma_marked_inside(plain(spaces(2) + repeated('\u{2500}', 8)), "Markdown.Rule");
    } else if heading_of(t) is Some {
        lemma_inline_inside(heading_of(t)->0);
        lemma_marked_inside(inline_of(heading_of(t)->0), "Markdown.Heading");
    } else if quote_of(t) is Some {
        let bar = plain(seq!['\u{2502}', ' ']);
        lemma_inline_inside(quote_of(t)->0);
        lemma_marked_inside(bar, "Markdown.Quote");
        lemma_join_inside(plain(spaces(indent)), marked(bar, "Markdown.Quote"));
        lemma_join_inside(
            join(plain(spaces(indent)), marked(bar, "Markdown.Quote")),
            inline_of(quote_of(t)->0),
        );
    } else if item_of(t) is Some {
        let (marker, rest) = item_of(t)->0;
        lemma_inline_inside(rest);
        lemma_marked_inside(plain(marker), "Markdown.Bullet");
        lemma_join_inside(plain(spaces(indent + 2)), marked(plain(marker), "Markdown.Bullet"));
        lemma_join_inside(
            join(plain(spaces(indent + 2)), marked(plain(marker), "Markdown.Bullet")),
            inline_of(rest),
        );
    } else {
        lemma_inline_inside(t);
        lemma_join_inside(plain(spaces(indent)), inline_of(t));
    }
}

pub proof fn lemma_stack_inside(a: Drawn, b: Drawn)
    requires
        inside(a),
        inside(b),
    ensures
        inside(stack(a, b)),
{
    let d = stack(a, b);
    let n = a.marks.len() as int;
    assert forall|i: int| 0 <= i < d.marks.len() implies 0 <= (#[trigger] d.marks[i]).row
        < d.rows.len() && fits(d.marks[i], d.rows[d.marks[i].row]) by {
        if i < n {
            assert(d.marks[i] == a.marks[i]);
            assert(d.rows[a.marks[i].row] == a.rows[a.marks[i].row]);
        } else {
            let m = b.marks[i - n];
            assert(0 <= m.row < b.rows.len() && fits(m, b.rows[m.row]));
            assert(d.rows[m.row + a.rows.len()] == b.rows[m.row]);
        }
    }
    assert forall|i: int, j: int| 0 <= i < j < d.marks.len() implies (#[trigger] d.marks[i]).row
        <= (#[trigger] d.marks[j]).row by {
        if i < n {
            assert(d.marks[i] == a.marks[i]);
            if j < n {
                assert(d.marks[j] == a.marks[j]);
            } else {
                assert(b.marks[j - n].row >= 0);
            }
        } else {
            assert(b.marks[i - n].row <= b.marks[j - n].row);
        }
    }
}

proof fn lemma_single_inside(raw: Seq<char>, fence: bool)
    ensures
        inside(single(raw, fence)),
{
    let line = bare(raw);
    lemma_marked_inside(plain(spaces(2) + language(line)), "Markdown.Fence");
    lemma_marked_inside(plain(spaces(2) + line), "Markdown.Code");
    lemma_line_inside(line);
}

proof fn lemma_entries_inside(header: Seq<Seq<char>>, row: Seq<Seq<char>>, n: int)
    ensures
        inside(entries(header, row, n)),
    decreases n,
{
    if n > 0 {
        lemma_entries_inside(header, row, n - 1);
        let label = label_width(header);
        let name = clip_of(cell_at(header, n - 1), label);
        lemma_marked_inside(plain(name), "Markdown.Heading");
        lemma_join_inside(plain(spaces(2)), marked(plain(name), "Markdown.Heading"));
        lemma_join_inside(
            join(plain(spaces(2)), marked(plain(name), "Markdown.Heading")),
            plain(spaces(padding(columns_of(name), label)) + spaces(2) + row[n - 1]),
        );
        lemma_stack_inside(
            entries(header, row, n - 1),
            row_of(entry(cell_at(header, n - 1), label, row[n - 1]), false),
        );
    }
}

proof fn lemma_records_inside(header: Seq<Seq<char>>, rows: Seq<Seq<Seq<char>>>, n: int)
    ensures
        inside(records_of(header, rows, n)),
    decreases n,
{
    if n > 0 {
        lemma_records_inside(header, rows, n - 1);
        lemma_entries_inside(header, rows[n - 1], rows[n - 1].len() as int);
        let above = records_of(header, rows, n - 1);
        lemma_stack_inside(above, row_of(plain(seq![]), false));
        let gap = if n > 1 {
            stack(above, row_of(plain(seq![]), false))
        } else {
            above
        };
        lemma_stack_inside(gap, entries(header, rows[n - 1], rows[n - 1].len() as int));
    }
}

proof fn lemma_table_inside(raw: Seq<Seq<char>>)
    ensures
        inside(table_of(raw)),
{
    let header = cells_of(raw[0])->0;
    let aligns = delimiter_of(raw[1], header.len())->0;
    let rows = table_rows(raw.skip(2));
    let ws = column_widths(measures(header), rows.map_values(|r: Seq<Seq<char>>| measures(r)));
    lemma_records_inside(header, rows, rows.len() as int);
    let head = plain(set_row(header, ws, aligns));
    let rule = plain(table_rule(ws));
    lemma_marked_inside(head, "Markdown.Heading");
    lemma_marked_inside(rule, "Markdown.Rule");
    lemma_stack_inside(
        row_of(marked(head, "Markdown.Heading"), false),
        row_of(marked(rule, "Markdown.Rule"), false),
    );
    lemma_stack_inside(
        stack(
            row_of(marked(head, "Markdown.Heading"), false),
            row_of(marked(rule, "Markdown.Rule"), false),
        ),
        body_rows(rows, ws, aligns),
    );
}

/// Every mark lies on one of the rows that are drawn, inside it and between whole characters, and the
/// marks come in the order of their rows.
pub proof fn marks_lie_on_their_rows(raw: Seq<Seq<char>>, fence: bool)
    ensures
        inside(draw(raw, fence)),
    decreases raw.len(),
{
    let n = block_len(raw, fence);
    if 0 < n <= raw.len() {
        let b = block(raw, fence);
        marks_lie_on_their_rows(raw.skip(n), b.fence);
        lemma_table_inside(raw);
        lemma_single_inside(raw[0], fence);
        lemma_stack_inside(b, draw(raw.skip(n), b.fence));
    }
}

} // verus!
