//! Text that goes into the transcript exactly as it comes: reasoning, and answers where somebody
//! wants to see what the model sent.
//!
//! It goes on the end of the *last* line, so the working line has to stop being that for as long as
//! it takes.

use crate::host::chat::{closed, opened, Chat, ChatState, Streaming};
use crate::host::screen::{rows_of, Line, Row, Shown};
use crate::host::working::{begun, ended};
use crate::text::{chars_of, split_on, texts};
use crate::words::split;
use vstd::prelude::*;

verus! {

/// Some lines with more text run on: the first piece goes on the end of the last line, and every
/// other on a line of its own.
pub open spec fn run_into(lines: Seq<Seq<char>>, text: Seq<char>) -> Seq<Seq<char>> {
    let pieces = split_on(text, '\n');
    if lines.len() == 0 {
        pieces
    } else {
        lines.drop_last().push(lines.last() + pieces[0]) + pieces.skip(1)
    }
}

/// The transcript with more text on the end of its last line.
pub open spec fn ran_on(s: ChatState, text: Seq<char>) -> ChatState {
    ChatState {
        shown: Shown { lines: run_into(s.shown.lines, text), marks: s.shown.marks },
        ..s
    }
}

/// The transcript with a row of its own for something that begins to stream.
pub open spec fn row_begun(s: ChatState) -> ChatState {
    let c = closed(s);
    ChatState {
        shown: Shown { lines: c.shown.lines.push(seq![]), marks: c.shown.marks },
        ..c
    }
}

/// Whether what comes next continues what is streaming. Switching between one and the other has to
/// break the line, and an answer that is being drawn is neither.
pub open spec fn continues(s: ChatState, kind: Streaming) -> bool {
    s.streaming == Some(kind) && s.answer is None
}

/// The transcript with some reasoning, or anything else that streams as it is, run into it.
pub open spec fn streamed_in(s: ChatState, kind: Streaming, text: Seq<char>, footer: Seq<Line>) -> ChatState {
    let e = ChatState { unanswered: None, ..ended(s) };
    let b = if continues(e, kind) {
        e
    } else {
        ChatState { streaming: Some(kind), ..row_begun(e) }
    };
    let r = ran_on(b, text);
    if s.working {
        begun(r, footer)
    } else {
        r
    }
}

/// The transcript with more of an answer run into it as it came.
pub open spec fn answered_raw(s: ChatState, text: Seq<char>, footer: Seq<Line>) -> ChatState {
    let e = ended(s);
    let b = if continues(e, Streaming::Text) {
        e
    } else {
        ChatState { streaming: Some(Streaming::Text), ..opened(closed(e)) }
    };
    let r = ran_on(b, text);
    if s.working {
        begun(r, footer)
    } else {
        r
    }
}

proof fn lemma_pieces(text: Seq<char>)
    ensures
        split_on(text, '\n').len() >= 1,
    decreases text.len(),
{
    let i = crate::text::position_of(text, '\n');
    if 0 <= i < text.len() {
        lemma_pieces(text.skip(i + 1));
    }
}

impl Chat {
    /// Put more text on the end of the last line.
    fn run_on(&mut self, text: &str)
        requires
            old(self).wf(),
            !old(self).working,
            old(self).answer is None,
        ensures
            final(self).wf(),
            final(self)@ == ran_on(old(self)@, text@),
            final(self).answer is None,
            !final(self).working,
    {
        let ghost s = self@;
        let cs = chars_of(text);
        let pieces = split(cs.as_slice(), '\n');
        proof {
            lemma_pieces(text@);
        }
        let ghost want = run_into(s.shown.lines, text@);
        let mut i: usize = 0;
        match self.screen.lines.pop() {
            None => {
                assert(texts(self.screen.lines@) =~= texts(pieces@).take(0));
                assert(s.shown.lines.len() == 0);
            },
            Some(last) => {
                let ghost above = texts(self.screen.lines@);
                assert(above =~= s.shown.lines.drop_last());
                let mut last = last;
                last.push_str(pieces[0].as_str());
                assert(texts(pieces@)[0] == pieces@[0]@);
                self.screen.lines.push(last);
                assert(texts(self.screen.lines@) =~= above.push(last@));
                i = 1;
            },
        }
        let ghost from = i as int;
        let ghost head = texts(self.screen.lines@);
        assert(head + texts(pieces@).skip(from) =~= want);
        assert(head =~= head + texts(pieces@).subrange(from, from));
        while i < pieces.len()
            invariant
                0 <= from <= i <= pieces@.len(),
                texts(self.screen.lines@) == head + texts(pieces@).subrange(from, i as int),
                self.screen.marks@ == s.shown.marks,
                self@ == (ChatState { shown: self.screen@, ..s }),
            decreases pieces@.len() - i,
        {
            let ghost was = texts(self.screen.lines@);
            self.screen.lines.push(pieces[i].clone());
            assert(texts(self.screen.lines@) =~= was.push(pieces@[i as int]@));
            assert(texts(pieces@).subrange(from, i + 1) =~= texts(pieces@).subrange(
                from,
                i as int,
            ).push(pieces@[i as int]@));
            assert(texts(self.screen.lines@) =~= head + texts(pieces@).subrange(from, i + 1));
            i = i + 1;
        }
        proof {
            assert(texts(pieces@).subrange(from, i as int) =~= texts(pieces@).skip(from));
            assert(texts(self.screen.lines@) == want);
            assert(want.len() >= s.shown.lines.len());
            assert(self@ == ran_on(s, text@));
        }
    }

    /// Some reasoning, run into the transcript as it comes. Reasoning under the question is the turn
    /// answering it, even when the answer proper has not started. `footer` is what goes back under
    /// the working line.
    pub fn stream_into_chat(&mut self, kind: Streaming, text: &str, footer: Vec<Row>)
        requires
            old(self).wf(),
        ensures
            final(self).wf(),
            final(self)@ == streamed_in(old(self)@, kind, text@, rows_of(footer@)),
    {
        let had = self.working;
        self.end_working();
        self.unanswered = None;
        let goes_on = match self.streaming {
            Some(k) => k == kind && self.answer.is_none(),
            None => false,
        };
        if !goes_on {
            self.close_answer();
            let ghost c = self@;
            let row = String::new();
            assert(row@ =~= seq![]);
            self.screen.lines.push(row);
            assert(self@.shown.lines =~= c.shown.lines.push(seq![]));
            self.streaming = Some(kind);
        }
        self.run_on(text);
        if had {
            self.begin_working(footer);
        }
    }

    /// More of an answer, exactly as it came.
    pub fn answer_raw(&mut self, text: &str, footer: Vec<Row>)
        requires
            old(self).wf(),
        ensures
            final(self).wf(),
            final(self)@ == answered_raw(old(self)@, text@, rows_of(footer@)),
    {
        let had = self.working;
        self.end_working();
        let goes_on = match self.streaming {
            Some(k) => k == Streaming::Text && self.answer.is_none(),
            None => false,
        };
        if !goes_on {
            self.close_answer();
            self.open_answer_row();
            self.streaming = Some(Streaming::Text);
        }
        self.run_on(text);
        if had {
            self.begin_working(footer);
        }
    }
}

/// What streams in piece by piece reads as it would all at once: where a piece ends is not seen.
pub proof fn where_a_piece_ends_is_not_seen(lines: Seq<Seq<char>>, a: Seq<char>, b: Seq<char>)
    ensures
        run_into(run_into(lines, a), b) == run_into(lines, a + b),
{
    lemma_pieces(a);
    lemma_pieces(b);
    lemma_split_joined(a, b);
    let p = split_on(a, '\n');
    let q = split_on(b, '\n');
    let both = p.drop_last().push(p.last() + q[0]) + q.skip(1);
    assert(split_on(a + b, '\n') == both);
    let one = run_into(lines, a);
    if lines.len() == 0 {
        assert(one == p);
        assert(run_into(one, b) =~= both);
    } else {
        let head = lines.drop_last().push(lines.last() + p[0]);
        assert(one == head + p.skip(1));
        if p.len() == 1 {
            assert(one =~= head);
            assert(p.drop_last() =~= seq![]);
            assert(both =~= seq![p[0] + q[0]] + q.skip(1));
            assert(both.skip(1) =~= q.skip(1));
            assert(one.last() + q[0] =~= lines.last() + (p[0] + q[0]));
            assert(one.drop_last() =~= lines.drop_last());
            assert(run_into(one, b) =~= run_into(lines, a + b));
        } else {
            assert(one.last() == p.last());
            assert(one.drop_last() =~= head + p.skip(1).drop_last());
            assert(both[0] == p[0]);
            assert(both.skip(1) =~= p.skip(1).drop_last().push(p.last() + q[0]) + q.skip(1));
            assert(run_into(one, b) =~= run_into(lines, a + b));
        }
    }
}

proof fn lemma_split_joined(a: Seq<char>, b: Seq<char>)
    ensures
        split_on(a, '\n').len() >= 1,
        split_on(b, '\n').len() >= 1,
        split_on(a + b, '\n') == split_on(a, '\n').drop_last().push(
            split_on(a, '\n').last() + split_on(b, '\n')[0],
        ) + split_on(b, '\n').skip(1),
    decreases a.len(),
{
    lemma_pieces(a);
    lemma_pieces(b);
    let p = split_on(a, '\n');
    let q = split_on(b, '\n');
    let i = crate::text::position_of(a, '\n');
    crate::text::lemma_position_found(a, '\n');
    let s = a + b;
    if i < a.len() {
        assert forall|j: int| 0 <= j < i implies #[trigger] s[j] != '\n' by {
            assert(a[j] != '\n');
        }
        assert(s[i] == '\n');
        crate::text::lemma_position(s, '\n', i);
        assert(s.skip(i + 1) =~= a.skip(i + 1) + b);
        lemma_split_joined(a.skip(i + 1), b);
        let rest = split_on(a.skip(i + 1), '\n');
        lemma_pieces(a.skip(i + 1));
        assert(s.take(i) =~= a.take(i));
        assert(p == seq![a.take(i)] + rest);
        assert(p.last() == rest.last());
        assert(p.drop_last() =~= seq![a.take(i)] + rest.drop_last());
        assert(split_on(s, '\n') =~= p.drop_last().push(p.last() + q[0]) + q.skip(1));
    } else {
        assert(p == seq![a]);
        let k = crate::text::position_of(b, '\n');
        crate::text::lemma_position_found(b, '\n');
        assert forall|j: int| 0 <= j < a.len() + k implies #[trigger] s[j] != '\n' by {
            if j < a.len() {
                assert(a[j] != '\n');
            } else {
                assert(s[j] == b[j - a.len()]);
            }
        }
        if k < b.len() {
            assert(s[a.len() + k] == b[k]);
        }
        crate::text::lemma_position(s, '\n', a.len() + k);
        assert(p.drop_last() =~= seq![]);
        if k < b.len() {
            assert(s.take(a.len() + k) =~= a + b.take(k));
            assert(s.skip(a.len() + k + 1) =~= b.skip(k + 1));
            assert(q == seq![b.take(k)] + split_on(b.skip(k + 1), '\n'));
            assert(q.skip(1) =~= split_on(b.skip(k + 1), '\n'));
            assert(split_on(s, '\n') =~= p.drop_last().push(p.last() + q[0]) + q.skip(1));
        } else {
            assert(q == seq![b]);
            assert(q.skip(1) =~= seq![]);
            assert(split_on(s, '\n') =~= p.drop_last().push(p.last() + q[0]) + q.skip(1));
        }
    }
}

} // verus!
