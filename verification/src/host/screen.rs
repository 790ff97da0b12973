//! Rows of text with colours on them.

use crate::text::texts;
use vstd::prelude::*;

verus! {

/// One highlight, before it becomes an extmark.
///
/// `span` is `None` for a band: a group behind the whole row rather than behind a range of bytes on
/// it. The two travel in one list because they are written together and have to arrive together.
#[derive(Debug, Clone, Copy, PartialEq, Eq)]
pub struct Mark {
    pub row: usize,
    pub span: Option<(usize, usize)>,
    pub hl: &'static str,
}

/// One row that is ready to be drawn.
#[derive(Debug)]
pub struct Row {
    pub text: String,
    /// The bytes that are coloured, and how.
    pub spans: Vec<(usize, usize, &'static str)>,
    /// A group behind the whole row.
    pub band: Option<&'static str>,
}

/// A row, as plain values.
pub struct Line {
    pub text: Seq<char>,
    pub spans: Seq<(usize, usize, &'static str)>,
    pub band: Option<&'static str>,
}

impl View for Row {
    type V = Line;

    open spec fn view(&self) -> Line {
        Line { text: self.text@, spans: self.spans@, band: self.band }
    }
}

/// Some rows, as plain values.
pub open spec fn rows_of(rows: Seq<Row>) -> Seq<Line> {
    rows.map_values(|r: Row| r@)
}

/// A row with nothing coloured on it.
pub open spec fn bare_line(text: Seq<char>) -> Line {
    Line { text, spans: seq![], band: None }
}

/// The marks that a row's spans become.
pub open spec fn span_marks(row: usize, spans: Seq<(usize, usize, &'static str)>) -> Seq<Mark> {
    spans.map_values(
        |s: (usize, usize, &'static str)| Mark { row, span: Some((s.0, s.1)), hl: s.2 },
    )
}

/// Every mark a row carries.
pub open spec fn row_marks(row: usize, r: Line) -> Seq<Mark> {
    match r.band {
        Some(hl) => span_marks(row, r.spans).push(Mark { row, span: None, hl }),
        None => span_marks(row, r.spans),
    }
}

impl Mark {
    pub fn at(row: usize, from: usize, to: usize, hl: &'static str) -> (r: Mark)
        ensures
            r == (Mark { row, span: Some((from, to)), hl }),
    {
        Mark { row, span: Some((from, to)), hl }
    }

    /// Every mark a row carries, ready to be shifted onto whatever row it lands on.
    pub fn of(row: usize, r: &Row) -> (v: Vec<Mark>)
        ensures
            v@ == row_marks(row, r@),
    {
        let mut v: Vec<Mark> = Vec::new();
        let mut i: usize = 0;
        assert(v@ =~= span_marks(row, r.spans@).take(0));
        while i < r.spans.len()
            invariant
                i <= r.spans@.len(),
                v@ == span_marks(row, r.spans@).take(i as int),
            decreases r.spans@.len() - i,
        {
            let s = r.spans[i];
            v.push(Mark::at(row, s.0, s.1, s.2));
            i = i + 1;
            assert(v@ =~= span_marks(row, r.spans@).take(i as int));
        }
        assert(span_marks(row, r.spans@).take(i as int) =~= span_marks(row, r.spans@));
        if let Some(hl) = r.band {
            v.push(Mark { row, span: None, hl });
        }
        v
    }
}

impl Row {
    /// A row with nothing coloured on it.
    pub fn bare(text: String) -> (r: Row)
        ensures
            r@ == bare_line(text@),
    {
        let spans: Vec<(usize, usize, &'static str)> = Vec::new();
        assert(spans@ =~= seq![]);
        Row { text, spans, band: None }
    }

    /// A row of one colour.
    pub fn plain(text: String, hl: &'static str) -> (r: Row)
        ensures
            r@ == one_colour(text@, hl),
    {
        let n = crate::text::bytes_in(text.as_str());
        let spans = vec![(0usize, n, hl)];
        assert(spans@ =~= seq![(0usize, n, hl)]);
        Row { text, spans, band: None }
    }
}

/// A row of one colour.
pub open spec fn one_colour(text: Seq<char>, hl: &'static str) -> Line {
    Line {
        text,
        spans: seq![(0usize, crate::text::width_in_bytes(text) as usize, hl)],
        band: None,
    }
}

/// The texts of some rows.
pub open spec fn row_texts(rows: Seq<Line>) -> Seq<Seq<char>> {
    rows.map_values(|r: Line| r.text)
}

/// The marks of some rows, the first of which stands at `at`.
pub open spec fn rows_marks(at: int, rows: Seq<Line>) -> Seq<Mark>
    decreases rows.len(),
{
    if rows.len() == 0 {
        seq![]
    } else {
        rows_marks(at, rows.drop_last()) + row_marks((at + rows.len() - 1) as usize, rows.last())
    }
}

/// What becomes of a mark when the rows `from..to` are replaced by `n` others: it goes if it was on
/// one of them, and moves with its row if it was below them.
pub open spec fn carried(m: Mark, from: int, to: int, n: int) -> Seq<Mark> {
    if m.row < from {
        seq![m]
    } else if m.row < to {
        seq![]
    } else {
        seq![Mark { row: (m.row - (to - from) + n) as usize, ..m }]
    }
}

/// What becomes of some marks.
pub open spec fn all_carried(marks: Seq<Mark>, from: int, to: int, n: int) -> Seq<Mark>
    decreases marks.len(),
{
    if marks.len() == 0 {
        seq![]
    } else {
        all_carried(marks.drop_last(), from, to, n) + carried(marks.last(), from, to, n)
    }
}

/// What is on screen.
#[derive(Debug)]
pub struct Screen {
    pub lines: Vec<String>,
    pub marks: Vec<Mark>,
}

/// What is on screen, as plain values.
pub struct Shown {
    pub lines: Seq<Seq<char>>,
    pub marks: Seq<Mark>,
}

/// The screen once the rows `from..to` have been replaced.
pub open spec fn replaced_rows(s: Shown, from: int, to: int, rows: Seq<Line>) -> Shown {
    Shown {
        lines: s.lines.take(from) + row_texts(rows) + s.lines.skip(to),
        marks: all_carried(s.marks, from, to, rows.len() as int) + rows_marks(from, rows),
    }
}

/// The screen once the rows `from..to` have been replaced by plain text.
pub open spec fn replaced_lines(s: Shown, from: int, to: int, lines: Seq<Seq<char>>) -> Shown {
    Shown {
        lines: s.lines.take(from) + lines + s.lines.skip(to),
        marks: all_carried(s.marks, from, to, lines.len() as int),
    }
}

/// The texts of some rows.
pub fn texts_of(rows: &Vec<Row>) -> (r: Vec<String>)
    ensures
        texts(r@) == row_texts(rows_of(rows@)),
{
    let mut r: Vec<String> = Vec::new();
    let mut i: usize = 0;
    while i < rows.len()
        invariant
            i <= rows@.len(),
            r@.len() == i,
            forall|j: int| 0 <= j < i ==> (#[trigger] r@[j])@ == rows@[j].text@,
        decreases rows@.len() - i,
    {
        r.push(rows[i].text.clone());
        i = i + 1;
    }
    assert(texts(r@) =~= row_texts(rows_of(rows@)));
    r
}

impl View for Screen {
    type V = Shown;

    open spec fn view(&self) -> Shown {
        Shown { lines: texts(self.lines@), marks: self.marks@ }
    }
}

/// Every mark is on a row that is there.
pub open spec fn marks_on_rows(marks: Seq<Mark>, rows: int) -> bool {
    forall|i: int| 0 <= i < marks.len() ==> (#[trigger] marks[i]).row < rows
}

proof fn lemma_carried_on_rows(marks: Seq<Mark>, from: int, to: int, n: int, rows: int)
    requires
        marks_on_rows(marks, rows),
        0 <= from <= to <= rows,
        rows - (to - from) + n <= usize::MAX,
        n >= 0,
    ensures
        marks_on_rows(all_carried(marks, from, to, n), rows - (to - from) + n),
    decreases marks.len(),
{
    if marks.len() > 0 {
        let less = marks.drop_last();
        assert(marks_on_rows(less, rows)) by {
            assert forall|i: int| 0 <= i < less.len() implies (#[trigger] less[i]).row < rows by {
                assert(less[i] == marks[i]);
            }
        }
        lemma_carried_on_rows(less, from, to, n, rows);
        assert(marks.last() == marks[marks.len() - 1]);
    }
}

proof fn lemma_rows_marks_on_rows(at: int, rows: Seq<Line>, total: int)
    requires
        0 <= at,
        at + rows.len() <= total,
        total <= usize::MAX,
    ensures
        marks_on_rows(rows_marks(at, rows), total),
    decreases rows.len(),
{
    if rows.len() > 0 {
        lemma_rows_marks_on_rows(at, rows.drop_last(), total);
        let row = (at + rows.len() - 1) as usize;
        assert(marks_on_rows(row_marks(row, rows.last()), total));
    }
}

impl Screen {
    /// Every mark is on a row that is there.
    pub open spec fn wf(self) -> bool {
        marks_on_rows(self.marks@, self.lines@.len() as int)
    }

    /// Nothing on screen.
    pub fn new() -> (r: Screen)
        ensures
            r.wf(),
            r@.lines == Seq::<Seq<char>>::empty(),
            r@.marks == Seq::<Mark>::empty(),
    {
        let r = Screen { lines: Vec::new(), marks: Vec::new() };
        assert(texts(r.lines@) =~= seq![]);
        assert(r.marks@ =~= seq![]);
        r
    }

    /// Whether there is nothing on a row.
    pub fn is_blank_row(&self, row: usize) -> (r: bool)
        requires
            row < self.lines@.len(),
        ensures
            r == crate::text::is_blank(self@.lines[row as int]),
    {
        let chars = crate::text::chars_of(self.lines[row].as_str());
        proof {
            crate::text::lemma_trim_blank(chars@);
            assert(self@.lines[row as int] == self.lines@[row as int]@);
        }
        crate::text::trim(chars.as_slice()).len() == 0
    }

    /// Replace the rows `from..to` by some plain text. Marks go with the rows they were on, and the
    /// rest move with theirs.
    pub fn set_lines(&mut self, from: usize, to: usize, lines: Vec<String>)
        requires
            old(self).wf(),
            from <= to <= old(self).lines@.len(),
        ensures
            final(self).wf(),
            final(self)@ == replaced_lines(old(self)@, from as int, to as int, texts(lines@)),
            final(self).lines@.len() == old(self).lines@.len() - (to - from) + lines@.len(),
    {
        let ghost before = self@;
        let ghost given = texts(lines@);
        let n = lines.len();
        let mut lines = lines;
        let mut below = self.lines.split_off(to);
        self.lines.truncate(from);
        let ghost kept = texts(self.lines@);
        let ghost after = texts(below@);
        assert(kept =~= before.lines.take(from as int));
        assert(after =~= before.lines.skip(to as int));
        self.lines.append(&mut lines);
        self.lines.append(&mut below);
        assert(texts(self.lines@) =~= kept + given + after);
        let total = self.lines.len();
        assert(total == texts(self.lines@).len());

        let mut moved: Vec<Mark> = Vec::new();
        let mut k: usize = 0;
        let gone = to - from;
        assert(before.marks.take(0) =~= seq![]);
        assert(moved@ =~= all_carried(before.marks.take(0), from as int, to as int, n as int));
        while k < self.marks.len()
            invariant
                k <= self.marks@.len(),
                self.marks@ == before.marks,
                self.lines@.len() == total,
                total == before.lines.len() - gone + n,
                gone == to - from,
                from <= to <= before.lines.len(),
                marks_on_rows(before.marks, before.lines.len() as int),
                moved@ == all_carried(
                    before.marks.take(k as int),
                    from as int,
                    to as int,
                    n as int,
                ),
            decreases self.marks@.len() - k,
        {
            let m = self.marks[k];
            proof {
                assert(before.marks.take(k + 1).drop_last() =~= before.marks.take(k as int));
                assert(before.marks.take(k + 1).last() == m);
            }
            let ghost was = moved@;
            if m.row < from {
                moved.push(m);
                assert(moved@ =~= was + carried(m, from as int, to as int, n as int));
            } else if m.row >= to {
                moved.push(Mark { row: (m.row - gone) + n, span: m.span, hl: m.hl });
                assert(moved@ =~= was + carried(m, from as int, to as int, n as int));
            } else {
                assert(moved@ =~= was + carried(m, from as int, to as int, n as int));
            }
            k = k + 1;
        }
        assert(before.marks.take(k as int) =~= before.marks);
        proof {
            lemma_carried_on_rows(
                before.marks,
                from as int,
                to as int,
                n as int,
                before.lines.len() as int,
            );
        }
        self.marks = moved;
    }

    /// Colour a row that is there.
    pub fn paint(&mut self, row: usize, r: &Row)
        requires
            old(self).wf(),
            row < old(self).lines@.len(),
        ensures
            final(self).wf(),
            final(self)@.lines == old(self)@.lines,
            final(self).lines == old(self).lines,
            final(self)@.marks == old(self)@.marks + row_marks(row, r@),
    {
        let mut more = Mark::of(row, r);
        self.marks.append(&mut more);
    }

    /// Replace the rows `from..to`. Marks go with the rows they were on, and the rest move with
    /// theirs.
    pub fn set_rows(&mut self, from: usize, to: usize, rows: &Vec<Row>)
        requires
            old(self).wf(),
            from <= to <= old(self).lines@.len(),
        ensures
            final(self).wf(),
            final(self)@ == replaced_rows(
                old(self)@,
                from as int,
                to as int,
                rows_of(rows@),
            ),
            final(self).lines@.len() == old(self).lines@.len() - (to - from) + rows@.len(),
    {
        let n = rows.len();
        let ghost given = rows_of(rows@);
        let lines = texts_of(rows);
        assert(texts(lines@).len() == lines@.len());
        self.set_lines(from, to, lines);
        let ghost lines1 = self@.lines;
        let ghost carried1 = self@.marks;
        assert(lines1.len() == self.lines@.len());
        let mut i: usize = 0;
        assert(given.take(0) =~= seq![]);
        assert(self@.marks =~= carried1 + rows_marks(from as int, given.take(0)));
        while i < n
            invariant
                i <= n,
                n == rows@.len(),
                given == rows_of(rows@),
                self.wf(),
                self@.lines == lines1,
                self.lines@.len() == lines1.len(),
                from + n <= self.lines@.len(),
                self@.marks == carried1 + rows_marks(from as int, given.take(i as int)),
            decreases n - i,
        {
            proof {
                assert(given.take(i + 1).drop_last() =~= given.take(i as int));
                assert(given.take(i + 1).last() == rows@[i as int]@);
            }
            let total = self.lines.len();
            self.paint(from + i, &rows[i]);
            i = i + 1;
            assert(self@.marks =~= carried1 + rows_marks(from as int, given.take(i as int)));
        }
        assert(given.take(n as int) =~= given);
    }

    /// Colour some bytes of a row.
    pub fn mark(&mut self, row: usize, from: usize, to: usize, hl: &'static str)
        requires
            old(self).wf(),
            row < old(self).lines@.len(),
        ensures
            final(self).wf(),
            final(self)@.lines == old(self)@.lines,
            final(self).lines == old(self).lines,
            final(self)@.marks == old(self)@.marks.push(
                Mark { row, span: Some((from, to)), hl },
            ),
    {
        self.marks.push(Mark::at(row, from, to, hl));
    }

    /// Put a band behind a whole row, out to whatever edge it is drawn against.
    pub fn band(&mut self, row: usize, hl: &'static str)
        requires
            old(self).wf(),
            row < old(self).lines@.len(),
        ensures
            final(self).wf(),
            final(self)@.lines == old(self)@.lines,
            final(self).lines == old(self).lines,
            final(self)@.marks == old(self)@.marks.push(Mark { row, span: None, hl }),
    {
        self.marks.push(Mark { row, span: None, hl });
    }
}

} // verus!
