//! The transcript on screen, and everything that writes into it.
//!
//! New content goes at the end, which is above the working line when there is one: that says what
//! is happening *now*, so anything that has already happened belongs above it. An answer that is
//! still being written is the last thing before that end, and anything else writing into the
//! transcript settles it first.

use crate::host::cards::{all_lowered, in_order, lower_cards, lowered, Card};
use crate::host::screen::{
    bare_line, marks_on_rows, replaced_lines, replaced_rows, rows_of, Line, Mark, Row, Screen,
    Shown,
};
use crate::markdown::bounds::inside;
use crate::markdown::model::{repaint_of, repainted, say, settled_part, unsaid, Drawn, Span, Stream};
use crate::markdown::stacking::lemma_repainted_inside;
use crate::markdown::{spans, Md, Patch};
use crate::text::{is_blank, texts};
use vstd::prelude::*;

verus! {

/// What is streaming into the transcript. Switching between the two has to break the line.
#[derive(Debug, Clone, Copy, PartialEq, Eq, Structural)]
pub enum Streaming {
    Text,
    Thinking,
}

/// One answer being written into the transcript. The rows it occupies are `start..start + rows`,
/// and nothing else ever writes inside that range.
#[derive(Debug)]
pub struct Answer {
    pub md: Md,
    pub start: usize,
    pub rows: usize,
}

/// The transcript on screen.
#[derive(Debug)]
pub struct Chat {
    pub screen: Screen,
    /// Every tool card in it, in row order.
    pub cards: Vec<Card>,
    /// The answer currently being written, and where it sits.
    pub answer: Option<Answer>,
    /// Set while output is streaming, so chunks append rather than starting a new line.
    pub streaming: Option<Streaming>,
    /// Whether the working line is there, with what sits under it.
    pub working: bool,
    /// How many rows of footer sit *under* the working line. More than none also means that there
    /// is a blank line above it.
    pub plan_rows: usize,
    /// Where a question sits that nothing has answered yet, as the first row of its block: exactly
    /// "the transcript ends with something you asked and nothing else".
    pub unanswered: Option<usize>,
}

/// An answer being written, as plain values.
pub struct Writing {
    pub stream: Stream,
    pub start: int,
    pub rows: int,
}

/// The transcript on screen, as plain values.
pub struct ChatState {
    pub shown: Shown,
    pub cards: Seq<Card>,
    pub answer: Option<Writing>,
    pub streaming: Option<Streaming>,
    pub working: bool,
    pub plan_rows: int,
    pub unanswered: Option<int>,
}

/// How many rows the working line and everything under it take, blank line included.
pub open spec fn block_rows(s: ChatState) -> int {
    if !s.working {
        0
    } else if s.plan_rows > 0 {
        2 + s.plan_rows
    } else {
        1
    }
}

/// Where new content goes.
pub open spec fn end_of(s: ChatState) -> int {
    s.shown.lines.len() - block_rows(s)
}

/// What is true of the transcript between one thing and the next.
pub open spec fn sound(s: ChatState) -> bool {
    &&& end_of(s) >= 0
    &&& s.plan_rows >= 0
    &&& !s.working ==> s.plan_rows == 0
    &&& marks_on_rows(s.shown.marks, s.shown.lines.len() as int)
    &&& in_order(s.cards, end_of(s))
    &&& match s.answer {
        Some(w) => {
            &&& 0 <= w.stream.rows <= w.stream.settled <= w.stream.said.len()
            &&& 0 <= w.start
            &&& w.start + w.rows == end_of(s)
            &&& w.stream.rows <= w.rows
            &&& in_order(s.cards, w.start)
            &&& s.unanswered is None
        },
        None => true,
    }
    &&& match s.unanswered {
        Some(u) => 0 <= u <= end_of(s) && in_order(s.cards, u),
        None => true,
    }
}

/// The marks of a patch whose first row lands on `at`.
pub open spec fn patch_marks(marks: Seq<Span>, at: int) -> Seq<Mark> {
    marks.map_values(
        |m: Span|
            Mark {
                row: (at + m.row) as usize,
                span: Some((m.from as usize, m.to as usize)),
                hl: m.group,
            },
    )
}

/// The screen once the rows `at..to` show what `d` says. Rows that already read right are left
/// alone.
pub open spec fn patched_rows(s: Shown, at: int, to: int, d: Drawn) -> Shown {
    if s.lines.subrange(at, to) == d.rows {
        s
    } else {
        let r = replaced_lines(s, at, to, d.rows);
        Shown { lines: r.lines, marks: r.marks + patch_marks(d.marks, at) }
    }
}

/// The transcript once the answer being written is over.
pub open spec fn closed(s: ChatState) -> ChatState {
    match s.answer {
        None => s,
        Some(w) => ChatState {
            shown: patched_rows(
                s.shown,
                w.start + w.stream.rows,
                w.start + w.rows,
                repainted(w.stream, true),
            ),
            answer: None,
            streaming: None,
            ..s
        },
    }
}

/// The transcript with some rows at the end of it.
pub open spec fn pushed(s: ChatState, rows: Seq<Line>) -> ChatState {
    let c = closed(s);
    ChatState {
        shown: replaced_rows(c.shown, end_of(c), end_of(c), rows),
        unanswered: None,
        streaming: None,
        ..c
    }
}

/// Whether a place is between cards and not in the middle of one.
pub open spec fn between_cards(cards: Seq<Card>, at: int) -> bool {
    forall|i: int|
        0 <= i < cards.len() ==> (#[trigger] cards[i]).row >= at || cards[i].row + cards[i].body
            < at
}

/// The transcript with some rows spliced in at `at`, and everything below moved down.
pub open spec fn spliced(s: ChatState, at: int, rows: Seq<Line>) -> ChatState {
    let c = closed(s);
    if rows.len() == 0 {
        c
    } else {
        ChatState {
            shown: replaced_rows(c.shown, at, at, rows),
            cards: all_lowered(c.cards, at, rows.len() as int),
            unanswered: match c.unanswered {
                Some(u) => Some(
                    if u >= at {
                        u + rows.len()
                    } else {
                        u
                    },
                ),
                None => None,
            },
            streaming: None,
            ..c
        }
    }
}

/// Whether something is written on the row above `at`.
pub open spec fn is_against(s: ChatState, at: int) -> bool {
    at > 0 && !is_blank(s.shown.lines[at - 1])
}

proof fn lemma_replaced_len(s: Shown, from: int, to: int, rows: Seq<Line>)
    requires
        0 <= from <= to <= s.lines.len(),
    ensures
        replaced_rows(s, from, to, rows).lines.len() == s.lines.len() - (to - from) + rows.len(),
{
}

pub proof fn lemma_in_order_later(cards: Seq<Card>, a: int, b: int)
    requires
        in_order(cards, a),
        a <= b,
    ensures
        in_order(cards, b),
{
}

pub proof fn lemma_lowered_in_order(cards: Seq<Card>, at: int, n: int, end: int)
    requires
        in_order(cards, end),
        between_cards(cards, at),
        n >= 0,
        end + n <= usize::MAX,
    ensures
        in_order(all_lowered(cards, at, n), end + n),
        between_cards(all_lowered(cards, at, n), at),
        between_cards(all_lowered(cards, at, n), at + n),
{
    let v = all_lowered(cards, at, n);
    assert forall|i: int, j: int| 0 <= i < j < v.len() implies (#[trigger] v[i]).row + v[i].body < (
    #[trigger] v[j]).row by {
        assert(v[i] == lowered(cards[i], at, n));
        assert(v[j] == lowered(cards[j], at, n));
        assert(cards[i].row + cards[i].body < cards[j].row);
        assert(cards[j].row + cards[j].body < end);
    }
    assert forall|i: int| 0 <= i < v.len() implies (#[trigger] v[i]).row + v[i].body < end + n by {
        assert(v[i] == lowered(cards[i], at, n));
        assert(cards[i].row + cards[i].body < end);
    }
    assert forall|i: int| 0 <= i < v.len() implies (#[trigger] v[i]).row >= at || v[i].row
        + v[i].body < at by {
        assert(v[i] == lowered(cards[i], at, n));
        assert(cards[i].row + cards[i].body < end);
    }
    assert forall|i: int| 0 <= i < v.len() implies (#[trigger] v[i]).row >= at + n || v[i].row
        + v[i].body < at + n by {
        assert(v[i] == lowered(cards[i], at, n));
        assert(cards[i].row + cards[i].body < end);
    }
}

impl View for Chat {
    type V = ChatState;

    open spec fn view(&self) -> ChatState {
        ChatState {
            shown: self.screen@,
            cards: self.cards@,
            answer: match self.answer {
                Some(a) => Some(
                    Writing { stream: a.md@, start: a.start as int, rows: a.rows as int },
                ),
                None => None,
            },
            streaming: self.streaming,
            working: self.working,
            plan_rows: self.plan_rows as int,
            unanswered: match self.unanswered {
                Some(u) => Some(u as int),
                None => None,
            },
        }
    }
}

impl Chat {
    /// What is true of the transcript between one thing and the next.
    pub open spec fn wf(self) -> bool {
        sound(self@)
    }

    /// An empty transcript.
    pub fn new() -> (r: Chat)
        ensures
            r.wf(),
            r@.shown.lines.len() == 0,
            r@.shown.marks.len() == 0,
            r@.cards.len() == 0,
            r@.answer is None,
            r@.streaming is None,
            !r@.working,
            r@.plan_rows == 0,
            r@.unanswered is None,
    {
        Chat {
            screen: Screen::new(),
            cards: Vec::new(),
            answer: None,
            streaming: None,
            working: false,
            plan_rows: 0,
            unanswered: None,
        }
    }

    /// How many rows the working line and everything under it take, blank line included.
    pub fn working_rows(&self) -> (r: usize)
        requires
            self.wf(),
        ensures
            r == block_rows(self@),
    {
        if !self.working {
            return 0;
        }
        let total = self.screen.lines.len();
        assert(self@.shown.lines.len() == total);
        if self.plan_rows > 0 {
            2 + self.plan_rows
        } else {
            1
        }
    }

    /// Where new content goes: the end, or above the working line when there is one.
    pub fn chat_end(&self) -> (r: usize)
        requires
            self.wf(),
        ensures
            r == end_of(self@),
            r <= self.screen.lines@.len(),
    {
        assert(self@.shown.lines.len() == self.screen.lines@.len());
        self.screen.lines.len() - self.working_rows()
    }

    /// Which row the working line is on, while there is one.
    pub fn working_row(&self) -> (r: usize)
        requires
            self.wf(),
            self.working,
        ensures
            r == self@.shown.lines.len() - 1 - self@.plan_rows,
            r < self.screen.lines@.len(),
    {
        let total = self.screen.lines.len();
        assert(self@.shown.lines.len() == total);
        total - 1 - self.plan_rows
    }

    /// Replace the unsettled tail of an answer with its freshly rendered form. Writing rows that
    /// already read right costs a frame and changes nothing on screen.
    fn apply_patch(&mut self, start: usize, rows: usize, patch: Patch, Ghost(d): Ghost<Drawn>) -> (r:
        usize)
        requires
            old(self).screen.wf(),
            patch.shows(patch.from as int, d),
            inside(d),
            patch.from <= rows,
            start + rows <= old(self).screen.lines@.len(),
        ensures
            final(self).screen.wf(),
            final(self)@ == (ChatState {
                shown: patched_rows(
                    old(self)@.shown,
                    start + patch.from,
                    start + rows,
                    d,
                ),
                ..old(self)@
            }),
            r == patch.from + d.rows.len(),
            final(self).screen.lines@.len() == old(self).screen.lines@.len() - (rows - patch.from)
                + d.rows.len(),
            start + r <= final(self).screen.lines@.len(),
    {
        let total = self.screen.lines.len();
        let at = start + patch.from;
        let to = start + rows;
        let n = patch.lines.len();
        let ghost before = self@.shown;
        assert(d.rows.len() == n);
        assert(before.lines.len() == total);
        // Compare what is there with what should be.
        let mut same = to - at == n;
        let mut i: usize = 0;
        while same && i < n
            invariant
                i <= n,
                n == patch.lines@.len(),
                texts(patch.lines@) == d.rows,
                before == self.screen@,
                at <= to <= self.screen.lines@.len(),
                same ==> to - at == n,
                same ==> forall|j: int|
                    0 <= j < i ==> before.lines[at + j] == #[trigger] d.rows[j],
                !same ==> to - at != n || exists|j: int|
                    0 <= j < n && to - at == n && before.lines[at + j] != #[trigger] d.rows[j],
            decreases n - i + (if same { 1int } else { 0 }),
        {
            assert(before.lines[at + i] == self.screen.lines@[at + i]@);
            assert(d.rows[i as int] == patch.lines@[i as int]@);
            if self.screen.lines[at + i] == patch.lines[i] {
                i = i + 1;
            } else {
                assert(before.lines[at + i] != d.rows[i as int]);
                same = false;
            }
        }
        if same {
            proof {
                assert(before.lines.subrange(at as int, to as int) =~= d.rows);
            }
            return patch.from + n;
        }
        proof {
            assert(before.lines.subrange(at as int, to as int) != d.rows) by {
                let w = before.lines.subrange(at as int, to as int);
                if to - at != n {
                    assert(w.len() != d.rows.len());
                } else {
                    let j = choose|j: int|
                        0 <= j < n && to - at == n && before.lines[at + j] != #[trigger] d.rows[j];
                    assert(w[j] != d.rows[j]);
                }
            }
        }
        let from = patch.from;
        let marks = patch.marks;
        self.screen.set_lines(at, to, patch.lines);
        let ghost lines1 = self.screen@.lines;
        let ghost marks1 = self.screen@.marks;
        let ghost want = patch_marks(d.marks, at as int);
        let total = self.screen.lines.len();
        assert(lines1.len() == total);
        let mut k: usize = 0;
        assert(self.screen@.marks =~= marks1 + want.take(0));
        while k < marks.len()
            invariant
                k <= marks@.len(),
                spans(marks@) == d.marks,
                want == patch_marks(d.marks, at as int),
                inside(d),
                at + d.rows.len() <= total,
                self.screen.wf(),
                self.screen.lines@.len() == total,
                self.screen@.lines == lines1,
                self.screen@.marks == marks1 + want.take(k as int),
                self@ == (ChatState { shown: self.screen@, ..old(self)@ }),
            decreases marks@.len() - k,
        {
            let m = marks[k];
            assert(d.marks[k as int] == crate::markdown::span_of(m));
            self.screen.mark(at + m.0, m.1, m.2, m.3);
            proof {
                assert(want[k as int] == Mark {
                    row: (at + m.0) as usize,
                    span: Some((m.1, m.2)),
                    hl: m.3,
                });
                assert(self.screen@.marks =~= marks1 + want.take(k + 1));
            }
            k = k + 1;
        }
        assert(want.take(k as int) =~= want);
        from + n
    }

    /// The answer is over: settle its last block and stop treating the tail as provisional.
    pub fn close_answer(&mut self)
        requires
            old(self).wf(),
        ensures
            final(self).wf(),
            final(self)@ == closed(old(self)@),
            final(self).answer is None,
    {
        if self.answer.is_none() {
            return;
        }
        let ghost s = self@;
        if let Some(mut a) = self.answer.take() {
            let ghost w = s.answer->0;
            let ghost d = repainted(w.stream, true);
            proof {
                lemma_repainted_inside(w.stream, true);
                assert(s.shown.lines.len() == self.screen.lines@.len());
            }
            let patch = a.md.finish();
            let ghost chat1 = self@;
            let n = self.apply_patch(a.start, a.rows, patch, Ghost(d));
            self.streaming = None;
            proof {
                let c = closed(s);
                assert(self@.shown == c.shown);
                assert(self@ == c);
                assert(self@.shown.lines.len() == self.screen.lines@.len());
                lemma_in_order_later(c.cards, w.start, end_of(c));
            }
        }
    }

    /// Add rows to the end of the transcript, returning the row the first one landed on.
    pub fn chat_push(&mut self, rows: &Vec<Row>) -> (r: usize)
        requires
            old(self).wf(),
        ensures
            final(self).wf(),
            final(self)@ == pushed(old(self)@, rows_of(rows@)),
            r == end_of(closed(old(self)@)),
            final(self).answer is None,
    {
        // Anything else writing into the transcript ends the answer: its rows are addressed by
        // range, and something landing after them would make "the end of the answer" ambiguous.
        self.close_answer();
        // Something is being said under the last question, so it is not the end of the transcript
        // any more.
        self.unanswered = None;
        let at = self.chat_end();
        let ghost c = self@;
        self.screen.set_rows(at, at, rows);
        self.streaming = None;
        proof {
            lemma_replaced_len(c.shown, at as int, at as int, rows_of(rows@));
            lemma_in_order_later(c.cards, end_of(c), end_of(self@));
        }
        at
    }

    /// Insert rows into the middle of the transcript, moving everything below down. The registry
    /// of card rows moves with them: a row index that is not maintained is a row index that
    /// eventually addresses somebody else's text.
    pub fn chat_splice(&mut self, at: usize, rows: &Vec<Row>) -> (r: usize)
        requires
            old(self).wf(),
            at <= end_of(closed(old(self)@)),
            between_cards(old(self)@.cards, at as int),
            match old(self)@.unanswered {
                Some(u) => at <= u,
                None => true,
            },
        ensures
            final(self).wf(),
            final(self)@ == spliced(old(self)@, at as int, rows_of(rows@)),
            r == at,
            final(self).answer is None,
            between_cards(final(self)@.cards, at + rows@.len()),
    {
        // Its rows are addressed by range, and something landing among them would move them.
        self.close_answer();
        let n = rows.len();
        let ghost s = self@;
        if n == 0 {
            return at;
        }
        self.screen.set_rows(at, at, rows);
        let total = self.screen.lines.len();
        proof {
            lemma_replaced_len(s.shown, at as int, at as int, rows_of(rows@));
            assert(self@.shown.lines.len() == total);
            lemma_in_order_later(s.cards, end_of(s), total - n);
            lemma_lowered_in_order(s.cards, at as int, n as int, end_of(s));
        }
        lower_cards(&mut self.cards, at, n, total);
        if let Some(u) = self.unanswered {
            if u >= at {
                self.unanswered = Some(u + n);
                proof {
                    lemma_lowered_in_order(s.cards, at as int, n as int, u as int);
                }
            }
        }
        self.streaming = None;
        at
    }

    /// Whether something is written on the row above `at`.
    pub fn against(&self, at: usize) -> (r: bool)
        requires
            self.wf(),
            at <= self.screen.lines@.len(),
        ensures
            r == is_against(self@, at as int),
    {
        assert(self@.shown.lines.len() == self.screen.lines@.len());
        at > 0 && !self.screen.is_blank_row(at - 1)
    }
}

/// So many rows with nothing on them.
pub open spec fn blank_lines(n: nat) -> Seq<Line> {
    Seq::new(n, |i: int| bare_line(seq![]))
}

/// Some rows with nothing on them.
pub fn blank_rows(n: usize) -> (r: Vec<Row>)
    ensures
        rows_of(r@) == blank_lines(n as nat),
        r@.len() == n,
{
    let mut r: Vec<Row> = Vec::new();
    let mut i: usize = 0;
    while i < n
        invariant
            i <= n,
            r@.len() == i,
            forall|j: int| 0 <= j < i ==> (#[trigger] r@[j])@ == bare_line(seq![]),
        decreases n - i,
    {
        let text = String::new();
        assert(text@ =~= seq![]);
        r.push(Row::bare(text));
        i = i + 1;
    }
    assert(rows_of(r@) =~= blank_lines(n as nat));
    r
}

/// How many rows an answer opens with: its own, and a blank one to keep it off what came before.
pub open spec fn opening(s: ChatState) -> nat {
    if is_against(s, end_of(s)) {
        2
    } else {
        1
    }
}

/// The transcript with the row open that an answer starts on.
pub open spec fn opened(s: ChatState) -> ChatState {
    ChatState {
        shown: replaced_rows(s.shown, end_of(s), end_of(s), blank_lines(opening(s))),
        unanswered: None,
        ..s
    }
}

/// The transcript with an answer being written in it, if there was none.
pub open spec fn answering(s: ChatState) -> ChatState {
    if s.answer is None {
        ChatState {
            answer: Some(
                Writing { stream: unsaid(), start: end_of(s) + opening(s) - 1, rows: 1 },
            ),
            ..opened(s)
        }
    } else {
        s
    }
}

/// The transcript with more of the answer in it.
pub open spec fn answered(s: ChatState, text: Seq<char>) -> ChatState {
    let o = answering(s);
    let w = o.answer->0;
    let said = say(w.stream, text);
    let d = repainted(said, false);
    ChatState {
        shown: patched_rows(o.shown, w.start + w.stream.rows, w.start + w.rows, d),
        answer: Some(
            Writing {
                stream: repaint_of(said, false),
                start: w.start,
                rows: w.stream.rows + d.rows.len(),
            },
        ),
        ..o
    }
}

impl Chat {
    /// Open the row an answer starts on, after a blank line separating it from what came before,
    /// unless there already is one.
    pub fn open_answer_row(&mut self) -> (r: usize)
        requires
            old(self).wf(),
            old(self).answer is None,
        ensures
            final(self).wf(),
            final(self)@ == opened(old(self)@),
            r == end_of(old(self)@) + opening(old(self)@) - 1,
            final(self).answer is None,
    {
        // An answer is arriving under the question, which is the thing that answers it.
        let ghost s = self@;
        let at = self.chat_end();
        let n: usize = if self.against(at) {
            2
        } else {
            1
        };
        let rows = blank_rows(n);
        self.unanswered = None;
        self.screen.set_rows(at, at, &rows);
        let total = self.screen.lines.len();
        proof {
            lemma_replaced_len(s.shown, at as int, at as int, blank_lines(n as nat));
            assert(self@.shown.lines.len() == total);
            lemma_in_order_later(s.cards, end_of(s), end_of(self@));
        }
        at + (n - 1)
    }

    /// Put the next piece of an answer into the transcript. It is rendered as it arrives, and the
    /// cost of that is a replacement of the trailing block rather than an append.
    pub fn answer_text(&mut self, text: &str)
        requires
            old(self).wf(),
        ensures
            final(self).wf(),
            final(self)@ == answered(old(self)@, text@),
    {
        let ghost s = self@;
        if self.answer.is_none() {
            let start = self.open_answer_row();
            proof {
                assert(self@.shown.lines.len() == s.shown.lines.len() + opening(s));
                lemma_in_order_later(s.cards, end_of(s), start as int);
            }
            self.answer = Some(Answer { md: Md::new(), start, rows: 1 });
        }
        let ghost o = self@;
        assert(o == answering(s));
        assert(sound(o));
        if let Some(mut a) = self.answer.take() {
            let ghost w = o.answer->0;
            let ghost said = say(w.stream, text@);
            let ghost d = repainted(said, false);
            proof {
                lemma_repainted_inside(said, false);
                assert(o.shown.lines.len() == self.screen.lines@.len());
            }
            let patch = a.md.push(text);
            let start = a.start;
            let rows = self.apply_patch(a.start, a.rows, patch, Ghost(d));
            self.answer = Some(Answer { md: a.md, start, rows });
            proof {
                assert(self@.shown.lines.len() == self.screen.lines@.len());
                assert(settled_part(said, false).rows.len() <= d.rows.len());
                assert(self@ == answered(s, text@));
                lemma_in_order_later(o.cards, w.start, end_of(self@));
            }
        }
    }
}

} // verus!
