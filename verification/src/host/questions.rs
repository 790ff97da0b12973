//! Questions, and the rows that close the turn a question started.

use crate::host::cards::{all_lowered, in_order, lowered};
use crate::host::chat::{
    between_cards, closed, end_of, is_against, lemma_in_order_later, pushed, sound, spliced, Chat,
    ChatState,
};
use crate::host::screen::{bare_line, one_colour, row_texts, rows_of, Line, Row};
use crate::host::working::ended;
use crate::text::{bytes_in, chars_of, is_blank, push_chars, width_in_bytes};
use crate::words::{lines, lines_of, slices};
use vstd::prelude::*;

verus! {

/// Some rows with a blank one above them, if there has to be.
pub open spec fn with_gap(gap: bool, rows: Seq<Line>) -> Seq<Line> {
    if gap {
        seq![bare_line(seq![])] + rows
    } else {
        rows
    }
}

/// Where a block of rows goes.
pub open spec fn place_of(s: ChatState, at: Option<int>) -> int {
    match at {
        Some(row) => row,
        None => end_of(s),
    }
}

/// How many rows a block takes up, the blank one above it counted.
pub open spec fn block_size(s: ChatState, at: Option<int>, rows: Seq<Line>) -> int {
    if rows.len() == 0 {
        0
    } else {
        with_gap(is_against(s, place_of(s, at)), rows).len() as int
    }
}

/// The transcript with a block of rows in it, above row `at` or at the end. A blank line goes above
/// unless there already is one: two blank lines read as a gap somebody forgot to fill, and none
/// reads as one paragraph.
pub open spec fn placed(s: ChatState, at: Option<int>, rows: Seq<Line>) -> ChatState {
    if rows.len() == 0 {
        s
    } else {
        let block = with_gap(is_against(s, place_of(s, at)), rows);
        match at {
            Some(row) => spliced(s, row, block),
            None => pushed(s, block),
        }
    }
}

/// Row `at` further down by `n`, where there is one.
pub open spec fn further(at: Option<int>, n: int) -> Option<int> {
    match at {
        Some(row) => Some(row + n),
        None => None,
    }
}

/// Why a turn ended.
#[derive(Debug)]
pub enum StopReason {
    EndTurn,
    ToolUse,
    MaxTokens,
    Cancelled,
    /// It was refused, with what was said of why.
    Refusal(Option<String>),
    Error(String),
}

/// What is said under a question that got no reply. A question with nothing under it is
/// indistinguishable from one still being thought about.
pub open spec fn no_reply(stop: StopReason) -> Line {
    match stop {
        StopReason::Error(message) => one_colour(message@, "Diagnostic.Error"),
        StopReason::Refusal(explanation) => one_colour(
            match explanation {
                Some(e) => e@,
                None => "the model declined to answer"@,
            },
            "Diagnostic.Warn",
        ),
        StopReason::Cancelled => one_colour("interrupted"@, "Agent.Usage"),
        StopReason::MaxTokens => one_colour("the reply hit the output limit"@, "Diagnostic.Warn"),
        _ => one_colour("no reply \u{2014} the turn ended here"@, "Diagnostic.Hint"),
    }
}

/// What is said under a question that got no reply.
pub fn no_reply_row(stop: &StopReason) -> (r: Row)
    ensures
        r@ == no_reply(*stop),
{
    match stop {
        StopReason::Error(message) => Row::plain(message.clone(), "Diagnostic.Error"),
        StopReason::Refusal(Some(e)) => Row::plain(e.clone(), "Diagnostic.Warn"),
        StopReason::Refusal(None) => Row::plain(
            "the model declined to answer".to_owned(),
            "Diagnostic.Warn",
        ),
        StopReason::Cancelled => Row::plain("interrupted".to_owned(), "Agent.Usage"),
        StopReason::MaxTokens => Row::plain(
            "the reply hit the output limit".to_owned(),
            "Diagnostic.Warn",
        ),
        _ => Row::plain("no reply \u{2014} the turn ended here".to_owned(), "Diagnostic.Hint"),
    }
}

/// The transcript once a turn is over. Its plan, what it left running and what it changed belong to
/// the answer they close: above a question that was steered in after it and that nothing has
/// answered, and at the end otherwise. Such a question is told that it got no reply.
pub open spec fn turn_closed(
    s: ChatState,
    plan: Seq<Line>,
    left: Seq<Line>,
    changes: Seq<Line>,
    stop: StopReason,
) -> ChatState {
    let c = closed(s);
    let at0 = c.unanswered;
    let s1 = ended(ChatState { unanswered: None, streaming: None, ..c });
    let s2 = placed(s1, at0, plan);
    let at1 = further(at0, block_size(s1, at0, plan));
    let s3 = placed(s2, at1, left);
    let at2 = further(at1, block_size(s2, at1, left));
    let s4 = placed(s3, at2, changes);
    let at3 = further(at2, block_size(s3, at2, changes));
    if at3 is Some {
        placed(s4, None, seq![no_reply(stop)])
    } else {
        s4
    }
}

/// A line of a question, behind the bar that marks it as one.
pub open spec fn barred(bar: Seq<char>, line: Seq<char>) -> Line {
    Line {
        text: bar + " "@ + line,
        spans: seq![(0usize, width_in_bytes(bar) as usize, "Agent.User")],
        band: None,
    }
}

/// The bar alone, for a question with nothing in it.
pub open spec fn bar_alone(bar: Seq<char>) -> Line {
    Line {
        text: bar,
        spans: seq![(0usize, width_in_bytes(bar) as usize, "Agent.User")],
        band: None,
    }
}

/// The rows of a question: its pictures, then what was typed, each behind the bar.
pub open spec fn question_lines(bar: Seq<char>, images: Seq<Seq<char>>, text: Seq<char>) -> Seq<
    Line,
> {
    let rows = images.map_values(|i: Seq<char>| barred(bar, i)) + lines_of(text).map_values(
        |l: Seq<char>| barred(bar, l),
    );
    if all_blank(rows) {
        rows.push(bar_alone(bar))
    } else {
        rows
    }
}

/// Rows with nothing on any of them.
pub open spec fn all_blank(rows: Seq<Line>) -> bool {
    forall|i: int| 0 <= i < rows.len() ==> is_blank((#[trigger] rows[i]).text)
}

proof fn lemma_all_blank_push(rows: Seq<Line>, r: Line)
    ensures
        all_blank(rows.push(r)) == (all_blank(rows) && is_blank(r.text)),
{
    let v = rows.push(r);
    if all_blank(v) {
        assert forall|i: int| 0 <= i < rows.len() implies is_blank((#[trigger] rows[i]).text) by {
            assert(v[i] == rows[i]);
        }
        assert(v[rows.len() as int] == r);
    }
}

/// The transcript with a question at the end of it, framed so that the eye can find where a turn
/// began, and nothing answering it yet.
pub open spec fn asked(s: ChatState, bar: Seq<char>, images: Seq<Seq<char>>, text: Seq<char>) -> ChatState {
    let rows = with_gap(
        is_against(s, end_of(s)),
        question_lines(bar, images, text).push(bare_line(seq![])),
    );
    ChatState { unanswered: Some(end_of(closed(s))), ..pushed(s, rows) }
}

pub fn barred_row(bar: &str, line: &[char]) -> (r: Row)
    ensures
        r@ == barred(bar@, line@),
{
    let mut text = bar.to_owned();
    let n = bytes_in(bar);
    text.push_str(" ");
    push_chars(&mut text, line);
    let spans = vec![(0usize, n, "Agent.User")];
    assert(spans@ =~= seq![(0usize, n, "Agent.User")]);
    Row { text, spans, band: None }
}

/// The rows of a question: its pictures, then what was typed, each behind the bar.
pub fn question_rows(bar: &str, images: &Vec<String>, text: &str) -> (r: Vec<Row>)
    ensures
        rows_of(r@) == question_lines(bar@, images@.map_values(|i: String| i@), text@),
{
    let ghost pics = images@.map_values(|i: String| i@);
    let ghost barred_pics = pics.map_values(|i: Seq<char>| barred(bar@, i));
    let mut r: Vec<Row> = Vec::new();
    let mut i: usize = 0;
    let mut blank = true;
    assert(rows_of(r@) =~= barred_pics.take(0));
    while i < images.len()
        invariant
            i <= images@.len(),
            pics == images@.map_values(|i: String| i@),
            barred_pics == pics.map_values(|i: Seq<char>| barred(bar@, i)),
            rows_of(r@) == barred_pics.take(i as int),
            blank == all_blank(rows_of(r@)),
        decreases images@.len() - i,
    {
        let chars = chars_of(images[i].as_str());
        let row = barred_row(bar, chars.as_slice());
        let clear = blank_text(row.text.as_str());
        let ghost was = rows_of(r@);
        let ghost one = row@;
        r.push(row);
        blank = blank && clear;
        proof {
            assert(rows_of(r@) =~= was.push(one));
            assert(barred_pics[i as int] == one);
            assert(barred_pics.take(i + 1) =~= was.push(one));
            lemma_all_blank_push(was, one);
        }
        i = i + 1;
    }
    assert(barred_pics.take(i as int) =~= barred_pics);
    let chars = chars_of(text);
    let ls = lines(chars.as_slice());
    let ghost barred_lines = lines_of(text@).map_values(|l: Seq<char>| barred(bar@, l));
    assert(slices(ls@).len() == ls@.len());
    let mut k: usize = 0;
    assert(rows_of(r@) =~= barred_pics + barred_lines.take(0));
    while k < ls.len()
        invariant
            k <= ls@.len(),
            slices(ls@) == lines_of(text@),
            barred_lines == lines_of(text@).map_values(|l: Seq<char>| barred(bar@, l)),
            rows_of(r@) == barred_pics + barred_lines.take(k as int),
            blank == all_blank(rows_of(r@)),
        decreases ls@.len() - k,
    {
        let row = barred_row(bar, ls[k]);
        let clear = blank_text(row.text.as_str());
        let ghost was = rows_of(r@);
        let ghost one = row@;
        r.push(row);
        blank = blank && clear;
        proof {
            assert(slices(ls@)[k as int] == ls@[k as int]@);
            assert(barred_lines[k as int] == one);
            assert(rows_of(r@) =~= was.push(one));
            assert(barred_pics + barred_lines.take(k + 1) =~= was.push(one));
            lemma_all_blank_push(was, one);
        }
        k = k + 1;
    }
    assert(barred_lines.take(k as int) =~= barred_lines);
    let ghost rows = barred_pics + barred_lines;
    if blank {
        let size = bytes_in(bar);
        let spans = vec![(0usize, size, "Agent.User")];
        assert(spans@ =~= seq![(0usize, size, "Agent.User")]);
        let row = Row { text: bar.to_owned(), spans, band: None };
        assert(row@ == bar_alone(bar@));
        r.push(row);
        assert(rows_of(r@) =~= rows.push(bar_alone(bar@)));
    }
    r
}

/// Whether there is nothing in a text.
pub fn blank_text(s: &str) -> (r: bool)
    ensures
        r == is_blank(s@),
{
    let chars = chars_of(s);
    proof {
        crate::text::lemma_trim_blank(s@);
    }
    crate::text::trim(chars.as_slice()).len() == 0
}

/// Some rows with a blank one above them, if there has to be.
fn gapped(gap: bool, rows: Vec<Row>) -> (r: Vec<Row>)
    ensures
        rows_of(r@) == with_gap(gap, rows_of(rows@)),
{
    if !gap {
        return rows;
    }
    let mut rows = rows;
    let ghost given = rows_of(rows@);
    let mut r = crate::host::chat::blank_rows(1);
    let ghost head = rows_of(r@);
    r.append(&mut rows);
    assert(rows_of(r@) =~= head + given);
    assert(head =~= seq![bare_line(seq![])]);
    r
}

impl Chat {
    /// Put a block of already-rendered rows into the transcript, with their highlights, and answer
    /// with how many rows it took. `at` is a row to splice above, or `None` for the end.
    pub fn place_block(&mut self, at: Option<usize>, rows: Vec<Row>) -> (r: usize)
        requires
            old(self).wf(),
            match at {
                Some(row) => {
                    &&& row <= end_of(old(self)@)
                    &&& row <= end_of(closed(old(self)@))
                    &&& between_cards(old(self)@.cards, row as int)
                    &&& old(self).unanswered is Some ==> row <= old(self).unanswered->0
                },
                None => true,
            },
        ensures
            final(self).wf(),
            final(self)@ == placed(
                old(self)@,
                match at {
                    Some(row) => Some(row as int),
                    None => None,
                },
                rows_of(rows@),
            ),
            r == block_size(
                old(self)@,
                match at {
                    Some(row) => Some(row as int),
                    None => None,
                },
                rows_of(rows@),
            ),
            match at {
                Some(row) => {
                    &&& old(self).answer is None ==> final(self).answer is None
                    &&& old(self).unanswered is None ==> final(self).unanswered is None
                    &&& old(self).answer is None ==> row + r <= end_of(final(self)@)
                    &&& in_order(old(self)@.cards, row as int) ==> in_order(
                        final(self)@.cards,
                        row + r,
                    )
                },
                None => true,
            },
    {
        let ghost s = self@;
        let ghost given = rows_of(rows@);
        assert(given.len() == rows@.len());
        if rows.len() == 0 {
            return 0;
        }
        let end = match at {
            Some(row) => row,
            None => self.chat_end(),
        };
        proof {
            assert(s.shown.lines.len() == self.screen.lines@.len());
        }
        let gap = self.against(end);
        let block = gapped(gap, rows);
        let n = block.len();
        assert(rows_of(block@).len() == n);
        match at {
            None => {
                self.chat_push(&block);
            },
            Some(row) => {
                self.chat_splice(row, &block);
                let total = self.screen.lines.len();
                proof {
                    assert(self@.shown.lines.len() == total);
                    assert(total == closed(s).shown.lines.len() + n);
                    assert(closed(s).cards == s.cards);
                    if in_order(s.cards, row as int) {
                        let v = all_lowered(s.cards, row as int, n as int);
                        assert forall|i: int| 0 <= i < v.len() implies #[trigger] v[i]
                            == s.cards[i] by {
                            assert(v[i] == lowered(s.cards[i], row as int, n as int));
                            assert(s.cards[i].row + s.cards[i].body < row);
                        }
                        assert(v =~= s.cards);
                        lemma_in_order_later(s.cards, row as int, row + n);
                    }
                }
            },
        }
        n
    }

    /// Draw a question the way a transcript should, and answer with the first row of the block it
    /// drew, which is where the turn's closing rows go when nothing is said after it.
    pub fn chat_question(&mut self, bar: &str, images: &Vec<String>, text: &str) -> (r: usize)
        requires
            old(self).wf(),
        ensures
            final(self).wf(),
            final(self)@ == asked(
                old(self)@,
                bar@,
                images@.map_values(|i: String| i@),
                text@,
            ),
            r == end_of(closed(old(self)@)),
    {
        let ghost s = self@;
        let end = self.chat_end();
        let gap = self.against(end);
        let mut rows = question_rows(bar, images, text);
        let ghost qs = rows_of(rows@);
        let none = String::new();
        assert(none@ =~= seq![]);
        rows.push(Row::bare(none));
        assert(rows_of(rows@) =~= qs.push(bare_line(seq![])));
        let block = gapped(gap, rows);
        let at = self.chat_push(&block);
        self.unanswered = Some(at);
        proof {
            assert(self@.shown.lines.len() == self.screen.lines@.len());
            let c = closed(s);
            assert(self@.shown.lines.len() == c.shown.lines.len() + rows_of(block@).len());
        }
        at
    }

    /// The turn is over: what it leaves behind, and what it says to a question it never answered.
    pub fn close_turn(
        &mut self,
        plan: Vec<Row>,
        left: Vec<Row>,
        changes: Vec<Row>,
        stop: &StopReason,
    )
        requires
            old(self).wf(),
        ensures
            final(self).wf(),
            final(self)@ == turn_closed(
                old(self)@,
                rows_of(plan@),
                rows_of(left@),
                rows_of(changes@),
                *stop,
            ),
            !final(self).working,
            final(self).answer is None,
    {
        self.close_answer();
        // Where the turn's own closing rows belong. Taken rather than read, because these rows are
        // what stops it being the last thing in the transcript.
        let mut at = self.unanswered;
        self.unanswered = None;
        self.streaming = None;
        // The working block sits below all of this, so taking it away first moves none of the rows
        // named here.
        self.end_working();
        // One after another, each below the last: every block that lands pushes the question, and
        // so the row the next one goes above, further down.
        let n = self.place_block(at, plan);
        let total = self.screen.lines.len();
        assert(self@.shown.lines.len() == total);
        if let Some(row) = at {
            at = Some(row + n);
        }
        let n = self.place_block(at, left);
        let total = self.screen.lines.len();
        assert(self@.shown.lines.len() == total);
        if let Some(row) = at {
            at = Some(row + n);
        }
        let n = self.place_block(at, changes);
        if at.is_some() {
            let row = no_reply_row(stop);
            let ghost said = row@;
            let rows = vec![row];
            assert(rows_of(rows@) =~= seq![said]);
            self.place_block(None, rows);
        }
    }
}

/// The rows that close a turn go above a question that nothing has answered, and never come between
/// its lines.
pub proof fn closing_rows_go_above_an_unanswered_question(s: ChatState, u: int, rows: Seq<Line>)
    requires
        sound(s),
        s.answer is None,
        0 <= u <= end_of(s),
    ensures
        ({
            let p = placed(s, Some(u), rows);
            let n = block_size(s, Some(u), rows);
            &&& p.shown.lines.take(u) == s.shown.lines.take(u)
            &&& p.shown.lines.skip(u + n) == s.shown.lines.skip(u)
        }),
{
    let p = placed(s, Some(u), rows);
    let n = block_size(s, Some(u), rows);
    assert(p.shown.lines.take(u) =~= s.shown.lines.take(u));
    assert(p.shown.lines.skip(u + n) =~= s.shown.lines.skip(u));
}

/// A question that is still unanswered when its turn ends is told so, on the last row there is.
pub proof fn a_question_without_a_reply_is_told_so(
    s: ChatState,
    plan: Seq<Line>,
    left: Seq<Line>,
    changes: Seq<Line>,
    stop: StopReason,
)
    requires
        sound(s),
        s.unanswered is Some,
    ensures
        turn_closed(s, plan, left, changes, stop).shown.lines.last() == no_reply(stop).text,
{
    let c = closed(s);
    assert(s.answer is None);
    let at0 = c.unanswered;
    let s1 = ended(ChatState { unanswered: None, streaming: None, ..c });
    let s2 = placed(s1, at0, plan);
    let at1 = further(at0, block_size(s1, at0, plan));
    let s3 = placed(s2, at1, left);
    let at2 = further(at1, block_size(s2, at1, left));
    let s4 = placed(s3, at2, changes);
    assert(!s4.working && s4.answer is None);
    let block = with_gap(is_against(s4, end_of(s4)), seq![no_reply(stop)]);
    let p = pushed(s4, block);
    let n = s4.shown.lines.len() as int;
    assert(end_of(s4) == n);
    assert(p.shown.lines =~= s4.shown.lines + row_texts(block));
    assert(block.last() == no_reply(stop));
}

} // verus!
