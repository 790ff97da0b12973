//! The working line: what is happening now, at the very end of the transcript.

use crate::host::chat::{end_of, sound, Chat, ChatState};
use crate::host::screen::{
    all_carried, bare_line, marks_on_rows, replaced_rows, row_marks, row_texts, rows_marks, rows_of,
    Line, Mark, Row,
};
use crate::text::{bytes_in, decimal, decimal_of, width_in_bytes};
use vstd::prelude::*;

verus! {

/// The rows of the block at the end: a blank one if there is a footer, the working line, and the
/// footer under it.
pub open spec fn block_lines(footer: Seq<Line>) -> Seq<Line> {
    if footer.len() > 0 {
        seq![bare_line(seq![]), bare_line(seq![])] + footer
    } else {
        seq![bare_line(seq![])]
    }
}

/// The transcript with the working line at the end of it.
pub open spec fn begun(s: ChatState, footer: Seq<Line>) -> ChatState {
    if s.working {
        s
    } else {
        ChatState {
            shown: replaced_rows(s.shown, end_of(s), end_of(s), block_lines(footer)),
            working: true,
            plan_rows: footer.len() as int,
            ..s
        }
    }
}

/// The transcript without the working line.
pub open spec fn ended(s: ChatState) -> ChatState {
    if !s.working {
        s
    } else {
        ChatState {
            shown: replaced_rows(s.shown, end_of(s), s.shown.lines.len() as int, seq![]),
            working: false,
            plan_rows: 0,
            ..s
        }
    }
}

/// The transcript with something else on the working line.
pub open spec fn working_redrawn(s: ChatState, line: Line) -> ChatState {
    if !s.working {
        s
    } else {
        let row = s.shown.lines.len() - 1 - s.plan_rows;
        ChatState { shown: replaced_rows(s.shown, row, row + 1, seq![line]), ..s }
    }
}

impl Chat {
    /// Put the working line at the end of the transcript, with what sits under it. A blank line
    /// goes above only when there is a footer: one row does not need announcing.
    ///
    /// Nothing is settled by it. It sits *after* an answer that is still being written, and closing
    /// that answer in order to say it is still going would be a strange thing to do.
    pub fn begin_working(&mut self, footer: Vec<Row>)
        requires
            old(self).wf(),
        ensures
            final(self).wf(),
            final(self)@ == begun(old(self)@, rows_of(footer@)),
            end_of(final(self)@) == end_of(old(self)@),
    {
        if self.working {
            return;
        }
        let ghost s = self@;
        let at = self.chat_end();
        let n = footer.len();
        let mut footer = footer;
        let ghost under = rows_of(footer@);
        let mut rows = crate::host::chat::blank_rows(if n > 0 { 2 } else { 1 });
        let ghost head = rows_of(rows@);
        rows.append(&mut footer);
        proof {
            assert(rows_of(rows@) =~= head + under);
            assert(rows_of(rows@) =~= block_lines(under));
        }
        self.screen.set_rows(at, at, &rows);
        self.plan_rows = n;
        self.working = true;
        assert(self@.shown.lines.len() == self.screen.lines@.len());
    }

    /// Take the working line away. Removed rather than blanked: it was never content, and a
    /// transcript that accumulates one empty row per turn is one with a growing hole in it.
    pub fn end_working(&mut self)
        requires
            old(self).wf(),
        ensures
            final(self).wf(),
            final(self)@ == ended(old(self)@),
            end_of(final(self)@) == end_of(old(self)@),
            final(self).answer == old(self).answer,
    {
        if !self.working {
            return;
        }
        let ghost s = self@;
        let at = self.chat_end();
        let total = self.screen.lines.len();
        let rows: Vec<Row> = Vec::new();
        assert(rows_of(rows@) =~= seq![]);
        self.screen.set_rows(at, total, &rows);
        self.working = false;
        self.plan_rows = 0;
        proof {
            assert(s.shown.lines.len() == total);
            assert(self@.shown.lines.len() == self.screen.lines@.len());
        }
    }

    /// Redraw the working line in place. What was coloured on it goes first: a mark left behind
    /// would paint the tail of a shorter label over the one being drawn now.
    pub fn draw_working(&mut self, line: Row)
        requires
            old(self).wf(),
        ensures
            final(self).wf(),
            final(self)@ == working_redrawn(old(self)@, line@),
            end_of(final(self)@) == end_of(old(self)@),
    {
        if !self.working {
            return;
        }
        let row = self.working_row();
        let total = self.screen.lines.len();
        let rows = vec![line];
        assert(rows_of(rows@) =~= seq![line@]);
        self.screen.set_rows(row, row + 1, &rows);
        proof {
            assert(self@.shown.lines.len() == self.screen.lines@.len());
        }
    }
}

proof fn lemma_carry_none(marks: Seq<Mark>, at: int, n: int)
    requires
        marks_on_rows(marks, at),
    ensures
        forall|to: int| to >= at ==> #[trigger] all_carried(marks, at, to, n) == marks,
    decreases marks.len(),
{
    if marks.len() > 0 {
        let less = marks.drop_last();
        assert(marks_on_rows(less, at)) by {
            assert forall|i: int| 0 <= i < less.len() implies (#[trigger] less[i]).row < at by {
                assert(less[i] == marks[i]);
            }
        }
        lemma_carry_none(less, at, n);
        assert(marks.last() == marks[marks.len() - 1]);
        assert forall|to: int| to >= at implies #[trigger] all_carried(marks, at, to, n)
            == marks by {
            assert(all_carried(less, at, to, n) == less);
            assert(all_carried(marks, at, to, n) =~= marks);
        }
    } else {
        assert forall|to: int| to >= at implies #[trigger] all_carried(marks, at, to, n)
            == marks by {
            assert(all_carried(marks, at, to, n) =~= marks);
        }
    }
}

proof fn lemma_carry_gone(a: Seq<Mark>, b: Seq<Mark>, at: int, to: int)
    requires
        marks_on_rows(a, at),
        forall|i: int| 0 <= i < b.len() ==> at <= (#[trigger] b[i]).row < to,
    ensures
        all_carried(a + b, at, to, 0) == a,
    decreases b.len(),
{
    if b.len() == 0 {
        assert(a + b =~= a);
        if to < at {
            lemma_carry_above(a, at, to);
        } else {
            lemma_carry_none(a, at, 0);
        }
    } else {
        let less = b.drop_last();
        assert forall|i: int| 0 <= i < less.len() implies at <= (#[trigger] less[i]).row < to by {
            assert(less[i] == b[i]);
        }
        lemma_carry_gone(a, less, at, to);
        assert((a + b).drop_last() =~= a + less);
        assert((a + b).last() == b[b.len() - 1]);
        assert(all_carried(a + b, at, to, 0) =~= a);
    }
}

proof fn lemma_carry_above(a: Seq<Mark>, at: int, to: int)
    requires
        marks_on_rows(a, at),
    ensures
        all_carried(a, at, to, 0) == a,
    decreases a.len(),
{
    if a.len() > 0 {
        let less = a.drop_last();
        assert forall|i: int| 0 <= i < less.len() implies (#[trigger] less[i]).row < at by {
            assert(less[i] == a[i]);
        }
        lemma_carry_above(less, at, to);
        assert(a.last() == a[a.len() - 1]);
        assert(all_carried(a, at, to, 0) =~= a);
    } else {
        assert(all_carried(a, at, to, 0) =~= a);
    }
}

proof fn lemma_rows_marks_range(at: int, rows: Seq<Line>)
    requires
        0 <= at,
        at + rows.len() <= usize::MAX,
    ensures
        forall|i: int|
            0 <= i < rows_marks(at, rows).len() ==> at <= (#[trigger] rows_marks(at, rows)[i]).row
                < at + rows.len(),
    decreases rows.len(),
{
    if rows.len() > 0 {
        let less = rows.drop_last();
        lemma_rows_marks_range(at, less);
        let row = (at + rows.len() - 1) as usize;
        let more = row_marks(row, rows.last());
        let a = rows_marks(at, less);
        assert forall|i: int| 0 <= i < rows_marks(at, rows).len() implies at <= (
        #[trigger] rows_marks(at, rows)[i]).row < at + rows.len() by {
            if i < a.len() {
                assert(rows_marks(at, rows)[i] == a[i]);
            } else {
                assert(rows_marks(at, rows)[i] == more[i - a.len()]);
            }
        }
    }
}

/// The working line leaves no trace: what the transcript was before it came is what it is after it
/// has gone, rows and colours.
pub proof fn the_working_line_leaves_no_trace(s: ChatState, footer: Seq<Line>)
    requires
        sound(s),
        !s.working,
        s.shown.lines.len() + footer.len() + 2 <= usize::MAX,
    ensures
        ended(begun(s, footer)) == s,
{
    let b = begun(s, footer);
    let block = block_lines(footer);
    let at = end_of(s);
    let n = s.shown.lines.len() as int;
    assert(at == n);
    let texts = row_texts(block);
    assert(b.shown.lines =~= s.shown.lines + texts);
    lemma_carry_none(s.shown.marks, at, block.len() as int);
    assert(all_carried(s.shown.marks, at, at, block.len() as int) == s.shown.marks);
    assert(b.shown.marks == s.shown.marks + rows_marks(at, block));
    lemma_rows_marks_range(at, block);
    let e = ended(b);
    assert(end_of(b) == at);
    assert(e.shown.lines =~= s.shown.lines);
    lemma_carry_gone(s.shown.marks, rows_marks(at, block), at, b.shown.lines.len() as int);
    assert(rows_marks(at, Seq::<Line>::empty()) =~= seq![]);
    assert(e.shown.marks =~= s.shown.marks);
}

/// How long something has been going, the way a clock would say it.
pub open spec fn elapsed_said(secs: nat) -> Seq<char> {
    if secs >= 60 {
        decimal(secs / 60) + "m "@ + decimal(secs % 60) + "s"@
    } else {
        decimal(secs) + "s"@
    }
}

fn elapsed(secs: u64) -> (r: String)
    ensures
        r@ == elapsed_said(secs as nat),
{
    if secs >= 60 {
        let mut r = decimal_of(secs / 60);
        r.push_str("m ");
        r.push_str(decimal_of(secs % 60).as_str());
        r.push_str("s");
        r
    } else {
        let mut r = decimal_of(secs);
        r.push_str("s");
        r
    }
}

/// What the working line says of what was typed while it was working.
pub open spec fn queued_said(n: nat) -> Seq<char> {
    if n == 0 {
        seq![]
    } else {
        "  \u{b7}  "@ + decimal(n) + " queued"@
    }
}

/// The part of the working line that moves.
pub open spec fn label_said(glyph: Seq<char>, label: Seq<char>) -> Seq<char> {
    glyph + " "@ + label + "\u{2026}"@
}

/// The working line: what it is doing, for how long, what is waiting, and how to stop it. Only the
/// label moves. A clock and a hint sweeping along with it would turn a status line into a light
/// show.
pub open spec fn working_line(
    glyph: Seq<char>,
    label: Seq<char>,
    secs: nat,
    queued: nat,
) -> Line {
    let head = label_said(glyph, label);
    let text = head + "  "@ + elapsed_said(secs) + queued_said(queued)
        + "  \u{b7}  esc to interrupt"@;
    Line {
        text,
        spans: seq![
            (0usize, width_in_bytes(head) as usize, "Status.Streaming"),
            (width_in_bytes(head) as usize, width_in_bytes(text) as usize, "Agent.Usage"),
        ],
        band: None,
    }
}

/// The working line. `note` is what it is waiting on, when that is something other than the model,
/// and stands in the place of the verb.
pub fn working_text(glyph: &str, verb: &str, note: Option<&str>, secs: u64, queued: usize) -> (r:
    Row)
    ensures
        r@ == working_line(
            glyph@,
            match note {
                Some(n) => n@,
                None => verb@,
            },
            secs as nat,
            queued as nat,
        ),
{
    let label = match note {
        Some(n) => n,
        None => verb,
    };
    let mut text = glyph.to_owned();
    text.push_str(" ");
    text.push_str(label);
    text.push_str("\u{2026}");
    let label_end = bytes_in(text.as_str());
    text.push_str("  ");
    text.push_str(elapsed(secs).as_str());
    if queued > 0 {
        let ghost before = text@;
        text.push_str("  \u{b7}  ");
        text.push_str(decimal_of(queued as u64).as_str());
        text.push_str(" queued");
        assert(text@ =~= before + queued_said(queued as nat));
    } else {
        assert(text@ =~= text@ + queued_said(queued as nat));
    }
    text.push_str("  \u{b7}  esc to interrupt");
    let total = bytes_in(text.as_str());
    let spans = vec![
        (0usize, label_end, "Status.Streaming"),
        (label_end, total, "Agent.Usage"),
    ];
    proof {
        assert(spans@ =~= seq![
            (0usize, label_end, "Status.Streaming"),
            (label_end, total, "Agent.Usage"),
        ]);
    }
    Row { text, spans, band: None }
}

} // verus!
