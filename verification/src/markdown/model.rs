//! What a piece of markdown looks like once it is drawn.
//!
//! Drawing is a function of the text alone. A text is cut into lines, the lines into blocks, and
//! each block into rows with marks on them; the executable half of the renderer is held to this.

use crate::markdown::lines::joined;
use crate::measure::{clip_of, columns_of};
use crate::text::{
    after_lead, before_tail, begins, found_from, is_blank, raw_lines, split_on, trim_end_of,
    trim_of, trim_start_of, width_in_bytes,
};
use vstd::prelude::*;

verus! {

/// The widest a single column is allowed to be before it is clipped.
pub const MAX_CELL: usize = 40;

/// The widest a whole table is allowed to be before it becomes a list of records instead.
pub const MAX_TABLE: usize = 100;

/// One styled span of one row.
pub struct Span {
    pub row: int,
    pub from: int,
    pub to: int,
    pub group: &'static str,
}

/// Some text of one row, and the marks on it.
pub struct Run {
    pub text: Seq<char>,
    pub marks: Seq<Span>,
}

/// Some rows, the marks on them, and whether a fence is open after them.
pub struct Drawn {
    pub rows: Seq<Seq<char>>,
    pub marks: Seq<Span>,
    pub fence: bool,
}

/// Marks moved down by some rows and right by some bytes.
pub open spec fn moved(marks: Seq<Span>, rows: int, cols: int) -> Seq<Span> {
    marks.map_values(
        |m: Span|
            Span { row: m.row + rows, from: m.from + cols, to: m.to + cols, group: m.group },
    )
}

/// One run after another on the same row.
pub open spec fn join(a: Run, b: Run) -> Run {
    Run { text: a.text + b.text, marks: a.marks + moved(b.marks, 0, width_in_bytes(a.text) as int) }
}

/// Text with nothing marked on it.
pub open spec fn plain(text: Seq<char>) -> Run {
    Run { text, marks: seq![] }
}

/// A run with one more mark, over the whole of it.
pub open spec fn marked(a: Run, group: &'static str) -> Run {
    Run {
        text: a.text,
        marks: a.marks.push(Span { row: 0, from: 0, to: width_in_bytes(a.text) as int, group }),
    }
}

/// Some rows under others. The fence state is the one after the last of them.
pub open spec fn stack(a: Drawn, b: Drawn) -> Drawn {
    Drawn {
        rows: a.rows + b.rows,
        marks: a.marks + moved(b.marks, a.rows.len() as int, 0),
        fence: b.fence,
    }
}

/// So many spaces.
pub open spec fn spaces(n: nat) -> Seq<char> {
    Seq::new(n, |i: int| ' ')
}

/// The same character so many times.
pub open spec fn repeated(c: char, n: nat) -> Seq<char> {
    Seq::new(n, |i: int| c)
}

// ---- inline -----------------------------------------------------------------

/// What stands at the front of some inline text, with where it ends.
pub enum Token {
    /// Back-ticks that close at the given place.
    Code(int),
    Strike(int),
    Bold(int),
    Italic(int),
    /// A label that closes at the first place, and a target that closes at the second.
    Link(int, int),
    /// One character that is only itself.
    Plain,
}

/// White space as ASCII has it.
pub open spec fn is_ascii_white(c: char) -> bool {
    c == ' ' || c == '\t' || c == '\n' || c == '\u{c}' || c == '\r'
}

/// A single `*` or `_` with something to emphasise after it: not half of a doubled one, and not
/// a bare one with white space behind it.
pub open spec fn opens_italic(s: Seq<char>) -> bool {
    &&& s.len() > 1
    &&& s[0] == '*' || s[0] == '_'
    &&& !begins(s, seq!['*', '*'])
    &&& !begins(s, seq!['_', '_'])
    &&& !is_ascii_white(s[1])
}

/// Where the target of a link closes, for a label that closes at `close`.
pub open spec fn link_end(s: Seq<char>, close: int) -> Option<int> {
    if close + 1 < s.len() && s[close + 1] == '(' {
        found_from(s, close + 2, seq![')'])
    } else {
        None
    }
}

pub open spec fn token(s: Seq<char>) -> Token {
    if s[0] == '`' && found_from(s, 1, seq!['`']) is Some {
        Token::Code(found_from(s, 1, seq!['`'])->0)
    } else if begins(s, seq!['~', '~']) && found_from(s, 2, seq!['~', '~']) is Some {
        Token::Strike(found_from(s, 2, seq!['~', '~'])->0)
    } else if begins(s, seq!['*', '*']) && found_from(s, 2, seq!['*', '*']) is Some {
        Token::Bold(found_from(s, 2, seq!['*', '*'])->0)
    } else if opens_italic(s) && found_from(s, 1, seq![s[0]]) is Some {
        Token::Italic(found_from(s, 1, seq![s[0]])->0)
    } else if s[0] == '[' && found_from(s, 1, seq![']']) is Some && link_end(
        s,
        found_from(s, 1, seq![']'])->0,
    ) is Some {
        let close = found_from(s, 1, seq![']'])->0;
        Token::Link(close, link_end(s, close)->0)
    } else {
        Token::Plain
    }
}

/// Inline text with its markers gone, and the marks they became.
pub open spec fn inline_of(s: Seq<char>) -> Run
    decreases s.len(),
{
    if s.len() == 0 {
        plain(seq![])
    } else {
        match token(s) {
            Token::Code(e) => if 1 <= e < s.len() {
                join(marked(plain(s.subrange(1, e)), "Markdown.Code"), inline_of(s.skip(e + 1)))
            } else {
                plain(seq![])
            },
            Token::Strike(e) => if 2 <= e && e + 2 <= s.len() {
                join(
                    marked(inline_of(s.subrange(2, e)), "Markdown.Strike"),
                    inline_of(s.skip(e + 2)),
                )
            } else {
                plain(seq![])
            },
            Token::Bold(e) => if 2 <= e && e + 2 <= s.len() {
                join(marked(inline_of(s.subrange(2, e)), "Markdown.Bold"), inline_of(s.skip(e + 2)))
            } else {
                plain(seq![])
            },
            Token::Italic(e) => if 1 <= e < s.len() {
                join(
                    marked(inline_of(s.subrange(1, e)), "Markdown.Italic"),
                    inline_of(s.skip(e + 1)),
                )
            } else {
                plain(seq![])
            },
            Token::Link(close, e) => if 1 <= close < s.len() && 1 <= e < s.len() {
                join(marked(plain(s.subrange(1, close)), "Markdown.Link"), inline_of(s.skip(e + 1)))
            } else {
                plain(seq![])
            },
            Token::Plain => join(plain(seq![s[0]]), inline_of(s.skip(1))),
        }
    }
}

// ---- one line ---------------------------------------------------------------

/// A line without what ends it.
pub open spec fn bare(line: Seq<char>) -> Seq<char> {
    before_tail(line, |c: char| c == '\n' || c == '\r')
}

/// A line that opens or closes a fence.
pub open spec fn is_fence(line: Seq<char>) -> bool {
    let t = trim_start_of(line);
    begins(t, seq!['`', '`', '`']) || begins(t, seq!['~', '~', '~'])
}

/// What a fence says it holds.
pub open spec fn language(line: Seq<char>) -> Seq<char> {
    trim_of(after_lead(trim_start_of(line), |c: char| c == '`' || c == '~'))
}

/// Nothing but one character, all the way.
pub open spec fn all_are(s: Seq<char>, c: char) -> bool {
    forall|i: int| 0 <= i < s.len() ==> #[trigger] s[i] == c
}

/// A thematic break.
pub open spec fn is_rule(line: Seq<char>) -> bool {
    let t = trim_end_of(line);
    t.len() >= 3 && (all_are(t, '-') || all_are(t, '*') || all_are(t, '_'))
}

/// The text of an ATX heading, if this is one.
pub open spec fn heading_of(line: Seq<char>) -> Option<Seq<char>> {
    let after = after_lead(line, |c: char| c == '#');
    let hashes = line.len() - after.len();
    let rest = trim_start_of(after);
    if 1 <= hashes <= 6 && rest.len() > 0 {
        Some(rest)
    } else {
        None
    }
}

/// The text of a quotation, if this is one.
pub open spec fn quote_of(line: Seq<char>) -> Option<Seq<char>> {
    if begins(line, seq!['>', ' ']) {
        Some(line.skip(2))
    } else if begins(line, seq!['>']) {
        Some(line.skip(1))
    } else {
        None
    }
}

/// A figure of ASCII.
pub open spec fn is_figure(c: char) -> bool {
    '0' <= c <= '9'
}

/// The bullet to draw and the text after it, if this is a list item.
pub open spec fn item_of(line: Seq<char>) -> Option<(Seq<char>, Seq<char>)> {
    if begins(line, seq!['-', ' ']) || begins(line, seq!['*', ' ']) || begins(
        line,
        seq!['+', ' '],
    ) {
        Some((seq!['\u{2022}', ' '], line.skip(2)))
    } else {
        let rest = after_lead(line, |c: char| is_figure(c));
        let figures = line.len() - rest.len();
        if 1 <= figures <= 9 && (begins(rest, seq!['.', ' ']) || begins(rest, seq![')', ' '])) {
            Some((line.take(figures) + seq!['.', ' '], rest.skip(2)))
        } else {
            None
        }
    }
}

/// The code on an indented line, if this is one: what follows four spaces or a tab. A list item is
/// not code however far it is indented, since that is how a list is nested.
pub open spec fn indented_of(line: Seq<char>) -> Option<Seq<char>> {
    if is_blank(line) || item_of(trim_start_of(line)) is Some {
        None
    } else if begins(line, seq![' ', ' ', ' ', ' ']) {
        Some(line.skip(4))
    } else if begins(line, seq!['\t']) {
        Some(line.skip(1))
    } else {
        None
    }
}

/// Whether a line outside a fence is drawn as a heading.
pub open spec fn is_heading(line: Seq<char>) -> bool {
    let trimmed = trim_start_of(line);
    indented_of(line) is None && !is_rule(trimmed) && heading_of(trimmed) is Some
}

/// One line that is neither fenced nor part of a table.
pub open spec fn line_of(line: Seq<char>) -> Run {
    let trimmed = trim_start_of(line);
    let indent = (width_in_bytes(line) - width_in_bytes(trimmed)) as nat;
    if indented_of(line) is Some {
        marked(plain(spaces(2) + indented_of(line)->0), "Markdown.Code")
    } else if is_rule(trimmed) {
        marked(plain(spaces(2) + repeated('\u{2500}', 8)), "Markdown.Rule")
    } else if heading_of(trimmed) is Some {
        marked(inline_of(heading_of(trimmed)->0), "Markdown.Heading")
    } else if quote_of(trimmed) is Some {
        join(
            join(
                plain(spaces(indent)),
                marked(plain(seq!['\u{2502}', ' ']), "Markdown.Quote"),
            ),
            inline_of(quote_of(trimmed)->0),
        )
    } else if item_of(trimmed) is Some {
        let (marker, rest) = item_of(trimmed)->0;
        join(
            join(plain(spaces(indent + 2)), marked(plain(marker), "Markdown.Bullet")),
            inline_of(rest),
        )
    } else {
        join(plain(spaces(indent)), inline_of(trimmed))
    }
}

/// A run on a row of its own.
pub open spec fn row_of(run: Run, fence: bool) -> Drawn {
    Drawn { rows: seq![run.text], marks: run.marks, fence }
}

/// Nothing drawn at all.
pub open spec fn nothing(fence: bool) -> Drawn {
    Drawn { rows: seq![], marks: seq![], fence }
}

/// What one source line draws, outside any table.
pub open spec fn single(raw: Seq<char>, fence: bool) -> Drawn {
    let line = bare(raw);
    if is_fence(line) {
        if fence || language(line).len() == 0 {
            nothing(!fence)
        } else {
            row_of(marked(plain(spaces(2) + language(line)), "Markdown.Fence"), true)
        }
    } else if fence {
        row_of(marked(plain(spaces(2) + line), "Markdown.Code"), true)
    } else {
        row_of(line_of(line), false)
    }
}

// ---- tables -----------------------------------------------------------------

/// Which edge of its column a cell is set against.
#[derive(Clone, Copy, PartialEq, Eq, Structural)]
pub enum Align {
    Left,
    Centre,
    Right,
}

/// A row of cells without the bars at its ends.
pub open spec fn unbarred(t: Seq<char>) -> Seq<char> {
    let a = if begins(t, seq!['|']) {
        t.skip(1)
    } else {
        t
    };
    if a.len() > 0 && a.last() == '|' {
        a.drop_last()
    } else {
        a
    }
}

/// The cells of a table row, or nothing if this line is not one.
pub open spec fn cells_of(line: Seq<char>) -> Option<Seq<Seq<char>>> {
    let t = trim_of(bare(line));
    let out = split_on(unbarred(t), '|').map_values(|c: Seq<char>| trim_of(c));
    if t.contains('|') && out.len() >= 2 {
        Some(out)
    } else {
        None
    }
}

/// The dashes of one cell of an alignment row.
pub open spec fn dashes_of(cell: Seq<char>) -> Seq<char> {
    before_tail(after_lead(trim_of(cell), |c: char| c == ':'), |c: char| c == ':')
}

/// A cell of an alignment row.
pub open spec fn is_dashes(cell: Seq<char>) -> bool {
    dashes_of(cell).len() >= 1 && all_are(dashes_of(cell), '-')
}

pub open spec fn align_of(cell: Seq<char>) -> Align {
    let body = trim_of(cell);
    if body.len() > 0 && body.last() == ':' {
        if body[0] == ':' {
            Align::Centre
        } else {
            Align::Right
        }
    } else {
        Align::Left
    }
}

/// The alignment row, if this line is one of the right width.
pub open spec fn delimiter_of(line: Seq<char>, columns: nat) -> Option<Seq<Align>> {
    match cells_of(line) {
        Some(cs) => if cs.len() == columns && (forall|i: int|
            0 <= i < cs.len() ==> is_dashes(#[trigger] cs[i])) {
            Some(cs.map_values(|c: Seq<char>| align_of(c)))
        } else {
            None
        },
        None => None,
    }
}

/// A line that its newline has ended.
pub open spec fn is_whole(line: Seq<char>) -> bool {
    line.len() > 0 && line.last() == '\n'
}

/// The rows under a header: one for each line, up to the first that is not a row. The last line
/// of all counts only once it is whole.
pub open spec fn table_rows(raw: Seq<Seq<char>>) -> Seq<Seq<Seq<char>>>
    decreases raw.len(),
{
    if raw.len() == 0 || (raw.len() == 1 && !is_whole(raw[0])) {
        seq![]
    } else {
        match cells_of(raw[0]) {
            Some(r) => seq![r] + table_rows(raw.skip(1)),
            None => seq![],
        }
    }
}

/// Whether a table starts with the first of these lines.
pub open spec fn is_table(raw: Seq<Seq<char>>) -> bool {
    &&& raw.len() >= 2
    &&& cells_of(raw[0]) is Some
    &&& delimiter_of(raw[1], cells_of(raw[0])->0.len()) is Some
}

/// How wide a cell of some columns may be.
pub open spec fn ask(columns: nat) -> nat {
    if columns <= MAX_CELL {
        columns
    } else {
        MAX_CELL as nat
    }
}

pub open spec fn larger(a: nat, b: nat) -> nat {
    if a < b {
        b
    } else {
        a
    }
}

/// The columns that each cell of a row takes.
pub open spec fn measures(cells: Seq<Seq<char>>) -> Seq<nat> {
    cells.map_values(|c: Seq<char>| columns_of(c))
}

/// The width of column `i`: the widest thing in it, clipped.
pub open spec fn column_width(header: Seq<nat>, rows: Seq<Seq<nat>>, i: int) -> nat
    decreases rows.len(),
{
    if rows.len() == 0 {
        ask(header[i])
    } else {
        let above = column_width(header, rows.drop_last(), i);
        if i < rows.last().len() {
            larger(above, ask(rows.last()[i]))
        } else {
            above
        }
    }
}

/// The widths of all the columns, from what the header's cells and the rows' cells take.
pub open spec fn column_widths(header: Seq<nat>, rows: Seq<Seq<nat>>) -> Seq<nat> {
    Seq::new(header.len(), |i: int| column_width(header, rows, i))
}

/// How wide all the columns are together, with two spaces in front of each.
pub open spec fn total_width(widths: Seq<nat>) -> nat
    decreases widths.len(),
{
    if widths.len() == 0 {
        0
    } else {
        total_width(widths.drop_last()) + widths.last() + 2
    }
}

/// What `columns` lack to fill `width`.
pub open spec fn padding(columns: nat, width: nat) -> nat {
    if columns <= width {
        (width - columns) as nat
    } else {
        0
    }
}

/// Text of so many columns, set against one edge of a column.
pub open spec fn set_against(c: Seq<char>, columns: nat, width: nat, align: Align) -> Seq<char> {
    let pad = padding(columns, width);
    match align {
        Align::Right => spaces(pad) + c,
        Align::Centre => spaces(pad / 2) + c + spaces((pad - pad / 2) as nat),
        Align::Left => c + spaces(pad),
    }
}

/// One cell clipped to its column and set in it.
pub open spec fn set_cell(cell: Seq<char>, width: nat, align: Align) -> Seq<char> {
    let c = clip_of(cell, width);
    set_against(c, columns_of(c), width, align)
}

/// The cell in column `i`, which a short row leaves empty.
pub open spec fn cell_at(cs: Seq<Seq<char>>, i: int) -> Seq<char> {
    if 0 <= i < cs.len() {
        cs[i]
    } else {
        seq![]
    }
}

/// The first `n` columns of a row, two spaces in front of each.
pub open spec fn set_cells(cs: Seq<Seq<char>>, widths: Seq<nat>, aligns: Seq<Align>, n: int) -> Seq<
    char,
>
    decreases n,
{
    if n <= 0 {
        seq![]
    } else {
        set_cells(cs, widths, aligns, n - 1) + spaces(2) + set_cell(
            cell_at(cs, n - 1),
            widths[n - 1],
            aligns[n - 1],
        )
    }
}

/// A whole row of a table.
pub open spec fn set_row(cs: Seq<Seq<char>>, widths: Seq<nat>, aligns: Seq<Align>) -> Seq<char> {
    trim_end_of(set_cells(cs, widths, aligns, widths.len() as int))
}

/// The rule under the header: as long as the columns and the gaps between them.
pub open spec fn table_rule(widths: Seq<nat>) -> Seq<char> {
    spaces(2) + repeated('\u{2500}', (total_width(widths) - 2) as nat)
}

/// The rows of a table as unmarked rows of text.
pub open spec fn body_rows(
    rows: Seq<Seq<Seq<char>>>,
    widths: Seq<nat>,
    aligns: Seq<Align>,
) -> Drawn {
    Drawn {
        rows: rows.map_values(|r: Seq<Seq<char>>| set_row(r, widths, aligns)),
        marks: seq![],
        fence: false,
    }
}

/// A table set in columns.
pub open spec fn columns(
    header: Seq<Seq<char>>,
    rows: Seq<Seq<Seq<char>>>,
    widths: Seq<nat>,
    aligns: Seq<Align>,
) -> Drawn {
    stack(
        stack(
            row_of(marked(plain(set_row(header, widths, aligns)), "Markdown.Heading"), false),
            row_of(marked(plain(table_rule(widths)), "Markdown.Rule"), false),
        ),
        body_rows(rows, widths, aligns),
    )
}

/// The widest label, clipped.
pub open spec fn label_width(header: Seq<Seq<char>>) -> nat
    decreases header.len(),
{
    if header.len() == 0 {
        0
    } else {
        larger(label_width(header.drop_last()), ask(columns_of(header.last())))
    }
}

/// One value of a record, after its label.
pub open spec fn entry(name: Seq<char>, label: nat, cell: Seq<char>) -> Run {
    let n = clip_of(name, label);
    join(
        join(plain(spaces(2)), marked(plain(n), "Markdown.Heading")),
        plain(spaces(padding(columns_of(n), label)) + spaces(2) + cell),
    )
}

/// The first `n` values of one record.
pub open spec fn entries(header: Seq<Seq<char>>, row: Seq<Seq<char>>, n: int) -> Drawn
    decreases n,
{
    if n <= 0 {
        nothing(false)
    } else {
        stack(
            entries(header, row, n - 1),
            row_of(entry(cell_at(header, n - 1), label_width(header), row[n - 1]), false),
        )
    }
}

/// The first `n` records of a table too wide to line up, with a blank row between two of them.
pub open spec fn records_of(header: Seq<Seq<char>>, rows: Seq<Seq<Seq<char>>>, n: int) -> Drawn
    decreases n,
{
    if n <= 0 {
        nothing(false)
    } else {
        let above = records_of(header, rows, n - 1);
        let gap = if n > 1 {
            stack(above, row_of(plain(seq![]), false))
        } else {
            above
        };
        stack(gap, entries(header, rows[n - 1], rows[n - 1].len() as int))
    }
}

/// The table that starts with the first of these lines.
pub open spec fn table_of(raw: Seq<Seq<char>>) -> Drawn {
    let header = cells_of(raw[0])->0;
    let aligns = delimiter_of(raw[1], header.len())->0;
    let rows = table_rows(raw.skip(2));
    let widths = column_widths(
        measures(header),
        rows.map_values(|r: Seq<Seq<char>>| measures(r)),
    );
    if total_width(widths) > MAX_TABLE {
        records_of(header, rows, rows.len() as int)
    } else {
        columns(header, rows, widths, aligns)
    }
}

// ---- a whole text -----------------------------------------------------------

/// How many lines the first block takes.
pub open spec fn block_len(raw: Seq<Seq<char>>, fence: bool) -> int {
    if !fence && is_table(raw) {
        2 + table_rows(raw.skip(2)).len() as int
    } else {
        1
    }
}

/// What the first block draws.
pub open spec fn block(raw: Seq<Seq<char>>, fence: bool) -> Drawn {
    if !fence && is_table(raw) {
        table_of(raw)
    } else {
        single(raw[0], fence)
    }
}

/// What some lines draw, one block after another.
pub open spec fn draw(raw: Seq<Seq<char>>, fence: bool) -> Drawn
    decreases raw.len(),
{
    let n = block_len(raw, fence);
    if 0 < n <= raw.len() {
        let b = block(raw, fence);
        stack(b, draw(raw.skip(n), b.fence))
    } else {
        nothing(fence)
    }
}

/// What a text draws.
pub open spec fn draw_text(text: Seq<char>, fence: bool) -> Drawn {
    draw(raw_lines(text), fence)
}

/// Whether a line by itself is a block that can no longer change, where a fence is open before it or
/// not: the marker that closes a fence, a blank line, or a heading that cannot become the header of
/// a table.
pub open spec fn settles(raw: Seq<char>, fence: bool) -> bool {
    let line = bare(raw);
    &&& is_whole(raw)
    &&& if is_fence(line) || fence {
        is_fence(line) && fence
    } else {
        is_blank(line) || (is_heading(line) && cells_of(raw) is None)
    }
}

/// How many lines belong to blocks that can no longer change: those up to the last line that settles
/// and is not part of a table.
pub open spec fn settled_lines(raw: Seq<Seq<char>>, fence: bool) -> int
    decreases raw.len(),
{
    let n = block_len(raw, fence);
    if 0 < n <= raw.len() {
        let rest = settled_lines(raw.skip(n), block(raw, fence).fence);
        if rest > 0 {
            n + rest
        } else if (fence || !is_table(raw)) && settles(raw[0], fence) {
            n
        } else {
            0
        }
    } else {
        0
    }
}

/// How many characters of a text belong to blocks that can no longer change.
pub open spec fn settled_chars(text: Seq<char>, fence: bool) -> int {
    joined(raw_lines(text).take(settled_lines(raw_lines(text), fence))).len() as int
}

// ---- an answer as it arrives ------------------------------------------------

/// An answer so far.
pub struct Stream {
    /// Everything that has been said, verbatim.
    pub said: Seq<char>,
    /// How many characters of it belong to blocks that can no longer change.
    pub settled: int,
    /// How many rows those blocks drew.
    pub rows: int,
    /// Whether a fence is open after them.
    pub fence: bool,
}

/// An answer that nothing has been said of yet.
pub open spec fn unsaid() -> Stream {
    Stream { said: seq![], settled: 0, rows: 0, fence: false }
}

/// An answer with more said.
pub open spec fn say(s: Stream, text: Seq<char>) -> Stream {
    Stream { said: s.said + text, ..s }
}

/// What has been said and not settled.
pub open spec fn unsettled(s: Stream) -> Seq<char> {
    s.said.skip(s.settled)
}

/// How much of that is settled now. When the answer is over, all of it is.
pub open spec fn settling(s: Stream, complete: bool) -> int {
    if complete {
        unsettled(s).len() as int
    } else {
        settled_chars(unsettled(s), s.fence)
    }
}

/// What the part that is settled now draws.
pub open spec fn settled_part(s: Stream, complete: bool) -> Drawn {
    draw_text(unsettled(s).take(settling(s, complete)), s.fence)
}

/// Everything that is drawn again: what is settled now, and what comes after it.
pub open spec fn repainted(s: Stream, complete: bool) -> Drawn {
    let done = settled_part(s, complete);
    stack(done, draw_text(unsettled(s).skip(settling(s, complete)), done.fence))
}

/// The answer once that has been drawn.
pub open spec fn repaint_of(s: Stream, complete: bool) -> Stream {
    let done = settled_part(s, complete);
    Stream {
        said: s.said,
        settled: s.settled + settling(s, complete),
        rows: s.rows + done.rows.len(),
        fence: done.fence,
    }
}

/// What is on screen once the rows from `from` on have been replaced.
pub open spec fn patched(screen: Drawn, from: int, d: Drawn) -> Drawn {
    Drawn {
        rows: screen.rows.take(from) + d.rows,
        marks: screen.marks.filter(|m: Span| m.row < from) + moved(d.marks, from, 0),
        fence: d.fence,
    }
}

} // verus!
