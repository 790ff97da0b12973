//! A conversation drawn again from what was said in it.
//!
//! Deliberately the *same* shape the live stream produces, so that switching away and back does not
//! change what a turn looks like.

use crate::host::cards::{call_among, find_call, in_order, Card, Leg, ToolResult};
use crate::host::chat::{
    end_of, is_against, lemma_in_order_later, patch_marks, sound, Chat, ChatState,
};
use crate::host::history::{
    begins_turn, called_before, counted_calls, find_called, heads, standing, standing_of,
    summed_calls, Standing, Told,
};
use crate::host::questions::barred;
use crate::host::screen::{
    bare_line, one_colour, replaced_lines, replaced_rows, rows_of, Line, Mark, Row, Shown,
};
use crate::host::toolcards::{cards_resized, joins, row_redrawn};
use crate::markdown::bounds::inside;
use crate::markdown::model::{say, unsaid, Drawn};
use crate::markdown::stacking::lemma_repainted_inside;
use crate::markdown::{render, rendered, spans};
use crate::text::{chars_of, texts};
use crate::words::{lines, lines_of, slices};
use vstd::prelude::*;

verus! {

/// One piece of a stored conversation, with whatever it takes to draw it.
#[derive(Debug)]
pub enum Block {
    /// A picture the user attached, as the one row it gets.
    Image(String),
    /// What the user typed.
    Question(String),
    /// What the model said.
    Answer(String),
    /// A tool call: whether it and the last one only look at things, and what its card's header
    /// says with this call on it.
    Call(Leg, bool, Row),
    /// What a call came back with, and the rows that shows.
    Result(String, ToolResult, Vec<Row>),
    /// What is not replayed.
    Hidden,
}

/// A conversation being drawn again.
#[derive(Debug)]
pub struct Replay {
    pub chat: Chat,
    /// Whether the row just written was an attached image, which is the one case where the text
    /// under it must *not* get a blank line of its own.
    pub after_image: bool,
}

/// The transcript with some rows under everything else.
pub open spec fn appended(s: ChatState, rows: Seq<Line>) -> ChatState {
    ChatState { shown: replaced_rows(s.shown, end_of(s), end_of(s), rows), ..s }
}

/// The transcript with a blank row at the end, unless there already is one.
pub open spec fn gap_added(s: ChatState) -> ChatState {
    if is_against(s, end_of(s)) {
        appended(s, seq![bare_line(seq![])])
    } else {
        s
    }
}

/// The transcript with what a turn changed at the end of it.
pub open spec fn summarised(s: ChatState, summary: Seq<Line>) -> ChatState {
    if summary.len() == 0 {
        s
    } else {
        appended(gap_added(s), summary)
    }
}

/// The transcript where a question starts: the turn before it is over.
pub open spec fn turn_begun(s: ChatState, summary: Seq<Line>, after_image: bool) -> ChatState {
    if after_image {
        s
    } else {
        gap_added(summarised(s, summary))
    }
}

/// The transcript with a rendered text at the end of it.
pub open spec fn drawn_at_end(s: ChatState, d: Drawn) -> ChatState {
    let at = end_of(s);
    let r = replaced_lines(s.shown, at, at, d.rows);
    ChatState {
        shown: Shown { lines: r.lines, marks: r.marks + patch_marks(d.marks, at) },
        ..s
    }
}

/// What was typed, each line behind the bar, and a blank row after it.
pub open spec fn typed_lines(bar: Seq<char>, text: Seq<char>) -> Seq<Line> {
    lines_of(text).map_values(|l: Seq<char>| barred(bar, l)).push(bare_line(seq![]))
}

/// Whether a block is drawn at all. Errors show even with tool cards off: the setting is about
/// noise, not about hiding failures.
pub open spec fn is_drawn(b: Block, show_tools: bool) -> bool {
    match b {
        Block::Call(_, _, _) => show_tools,
        Block::Result(_, r, _) => r.is_error || show_tools,
        Block::Hidden => false,
        _ => true,
    }
}

/// What is on screen, and where each card is, once a block has been drawn. What a card holds is said
/// by [`holds_after`].
pub open spec fn shown_after(
    s: ChatState,
    bar: Seq<char>,
    b: Block,
    summary: Seq<Line>,
    after_image: bool,
    show_tools: bool,
) -> Shown {
    if !is_drawn(b, show_tools) {
        s.shown
    } else {
        match b {
            Block::Image(row) => appended(
                turn_begun(s, summary, after_image),
                seq![barred(bar, row@)],
            ).shown,
            Block::Question(text) => appended(
                turn_begun(s, summary, after_image),
                typed_lines(bar, text@),
            ).shown,
            Block::Answer(text) => appended(
                drawn_at_end(gap_added(s), rendered(text@)),
                seq![bare_line(seq![])],
            ).shown,
            Block::Call(leg, grouped, header) => if joins(s, grouped) {
                row_redrawn(s, s.cards.last().row as int, header@).shown
            } else {
                appended(s, seq![header@]).shown
            },
            Block::Result(id, r, body) => match call_among(s.cards, id@) {
                Some((i, k)) => if s.cards[i].legs@[k].result is Some {
                    s.shown
                } else {
                    let c = s.cards[i];
                    replaced_rows(
                        s.shown,
                        c.row + 1,
                        c.row + 1 + c.body,
                        body_of(c, rows_of(body@)),
                    )
                },
                None => appended(s, rows_of(body@)).shown,
            },
            Block::Hidden => s.shown,
        }
    }
}

/// The rows under a card's header. A run holds its calls' answers and shows none of them.
pub open spec fn body_of(c: Card, body: Seq<Line>) -> Seq<Line> {
    if c.legs@.len() > 1 {
        seq![]
    } else {
        body
    }
}

/// What the cards are once a block has been drawn.
pub open spec fn holds_after(s: ChatState, b: Block, show_tools: bool, after: Seq<Card>) -> bool {
    if !is_drawn(b, show_tools) {
        after == s.cards
    } else {
        match b {
            Block::Call(leg, grouped, header) => if joins(s, grouped) {
                &&& after.len() == s.cards.len()
                &&& after.drop_last() == s.cards.drop_last()
                &&& after.last().legs@ == s.cards.last().legs@.push(leg)
                &&& after.last() == (Card { legs: after.last().legs, ..s.cards.last() })
            } else {
                &&& after.len() == s.cards.len() + 1
                &&& after.drop_last() == s.cards
                &&& after.last().legs@ == seq![leg]
                &&& after.last().row == end_of(s)
                &&& after.last().body == 0
                &&& !after.last().expanded
                &&& !after.last().flashed
            },
            Block::Result(id, r, body) => match call_among(s.cards, id@) {
                Some((i, k)) => if s.cards[i].legs@[k].result is Some {
                    after == s.cards
                } else {
                    let moved = cards_resized(
                        s.cards,
                        i,
                        body_of(s.cards[i], rows_of(body@)).len() as int,
                        s.cards[i].flashed,
                    );
                    &&& after.len() == moved.len()
                    &&& forall|j: int|
                        0 <= j < after.len() && j != i ==> #[trigger] after[j] == moved[j]
                    &&& after[i] == (Card { legs: after[i].legs, ..moved[i] })
                    &&& after[i].legs@ == moved[i].legs@.update(
                        k,
                        Leg { result: Some(r), ..moved[i].legs@[k] },
                    )
                },
                None => after == s.cards,
            },
            _ => after == s.cards,
        }
    }
}

/// Whether nothing is being written, which is how a transcript is while it is drawn again.
pub open spec fn is_quiet(s: ChatState) -> bool {
    !s.working && s.answer is None && s.unanswered is None
}

impl Chat {
    /// Put some rows under everything else.
    fn append(&mut self, rows: &Vec<Row>)
        requires
            old(self).wf(),
            is_quiet(old(self)@),
        ensures
            final(self).wf(),
            is_quiet(final(self)@),
            final(self)@ == appended(old(self)@, rows_of(rows@)),
            end_of(final(self)@) == end_of(old(self)@) + rows@.len(),
    {
        let at = self.chat_end();
        let ghost s = self@;
        self.screen.set_rows(at, at, rows);
        proof {
            assert(self@.shown.lines.len() == self.screen.lines@.len());
            assert(s.shown.lines.len() == at);
            lemma_in_order_later(s.cards, end_of(s), end_of(self@));
        }
    }

    /// A blank row at the end, unless there already is one.
    fn append_gap(&mut self)
        requires
            old(self).wf(),
            is_quiet(old(self)@),
        ensures
            final(self).wf(),
            is_quiet(final(self)@),
            final(self)@ == gap_added(old(self)@),
    {
        let at = self.chat_end();
        if self.against(at) {
            let rows = crate::host::chat::blank_rows(1);
            assert(rows_of(rows@) =~= seq![bare_line(seq![])]);
            self.append(&rows);
        }
    }

    /// What a turn changed, at the end of it.
    fn append_summary(&mut self, summary: &Vec<Row>)
        requires
            old(self).wf(),
            is_quiet(old(self)@),
        ensures
            final(self).wf(),
            is_quiet(final(self)@),
            final(self)@ == summarised(old(self)@, rows_of(summary@)),
    {
        assert(rows_of(summary@).len() == summary@.len());
        if summary.len() == 0 {
            return;
        }
        self.append_gap();
        self.append(summary);
    }

    /// A rendered text, under everything else.
    fn append_rendered(&mut self, text: &str)
        requires
            old(self).wf(),
            is_quiet(old(self)@),
        ensures
            final(self).wf(),
            is_quiet(final(self)@),
            final(self)@ == drawn_at_end(old(self)@, rendered(text@)),
    {
        let at = self.chat_end();
        let ghost s = self@;
        let ghost d = rendered(text@);
        proof {
            lemma_repainted_inside(say(unsaid(), text@), false);
        }
        let (new_lines, styled) = render(text);
        assert(texts(new_lines@).len() == new_lines@.len());
        self.screen.set_lines(at, at, new_lines);
        let total = self.screen.lines.len();
        let ghost lines1 = self.screen@.lines;
        let ghost marks1 = self.screen@.marks;
        let ghost want = patch_marks(d.marks, at as int);
        assert(lines1.len() == total);
        let mut k: usize = 0;
        assert(self.screen@.marks =~= marks1 + want.take(0));
        while k < styled.len()
            invariant
                k <= styled@.len(),
                spans(styled@) == d.marks,
                want == patch_marks(d.marks, at as int),
                inside(d),
                at + d.rows.len() == total,
                self.screen.wf(),
                self.screen.lines@.len() == total,
                self.screen@.lines == lines1,
                self.screen@.marks == marks1 + want.take(k as int),
                self@ == (ChatState { shown: self.screen@, ..s }),
            decreases styled@.len() - k,
        {
            let m = styled[k];
            assert(d.marks[k as int] == crate::markdown::span_of(m));
            self.screen.mark(at + m.0, m.1, m.2, m.3);
            proof {
                assert(want[k as int] == Mark {
                    row: (at + m.0) as usize,
                    span: Some((m.1, m.2)),
                    hl: m.3,
                });
                assert(self.screen@.marks =~= marks1 + want.take(k + 1));
            }
            k = k + 1;
        }
        proof {
            assert(want.take(k as int) =~= want);
            lemma_in_order_later(s.cards, end_of(s), end_of(self@));
        }
    }

    /// Draw a result under the header of the call it answers, however many other calls came
    /// between, and keep it there.
    fn replay_result(&mut self, i: usize, k: usize, result: ToolResult, body: Vec<Row>)
        requires
            old(self).wf(),
            is_quiet(old(self)@),
            i < old(self)@.cards.len(),
            k < old(self)@.cards[i as int].legs@.len(),
        ensures
            final(self).wf(),
            is_quiet(final(self)@),
            ({
                let s = old(self)@;
                let c = s.cards[i as int];
                let rows = body_of(c, rows_of(body@));
                let now = final(self)@;
                let moved = cards_resized(s.cards, i as int, rows.len() as int, c.flashed);
                &&& now == (ChatState { shown: now.shown, cards: now.cards, ..s })
                &&& now.shown == replaced_rows(s.shown, c.row + 1, c.row + 1 + c.body, rows)
                &&& now.cards.len() == moved.len()
                &&& forall|j: int|
                    0 <= j < now.cards.len() && j != i ==> #[trigger] now.cards[j] == moved[j]
                &&& now.cards[i as int] == (Card {
                    legs: now.cards[i as int].legs,
                    ..moved[i as int]
                })
                &&& now.cards[i as int].legs@ == c.legs@.update(
                    k as int,
                    Leg { result: Some(result), ..c.legs@[k as int] },
                )
            }),
    {
        let ghost s = self@;
        let row = self.cards[i].row;
        let was = self.cards[i].body;
        let rows: Vec<Row> = if self.cards[i].legs.len() > 1 {
            Vec::new()
        } else {
            body
        };
        let n = rows.len();
        let flashed = self.cards[i].flashed;
        let ghost under = rows_of(rows@);
        let total = self.screen.lines.len();
        proof {
            assert(under.len() == n);
            assert(under =~= body_of(s.cards[i as int], rows_of(body@)));
            assert(s.shown.lines.len() == total);
            assert(s.cards[i as int].row + s.cards[i as int].body < end_of(s));
        }
        self.screen.set_rows(row + 1, row + 1 + was, &rows);
        let total = self.screen.lines.len();
        assert(self@.shown.lines.len() == total);
        let ghost shown = self.screen@;
        let mut j: usize = 0;
        while j < self.cards.len()
            invariant
                j <= self.cards@.len(),
                self.cards@.len() == s.cards.len(),
                i < s.cards.len(),
                row == s.cards[i as int].row,
                was == s.cards[i as int].body,
                flashed == s.cards[i as int].flashed,
                sound(s),
                total == s.shown.lines.len() + n - was,
                forall|k: int|
                    0 <= k < j ==> #[trigger] self.cards@[k] == cards_resized(
                        s.cards,
                        i as int,
                        n as int,
                        flashed,
                    )[k],
                forall|k: int| j <= k < s.cards.len() ==> #[trigger] self.cards@[k] == s.cards[k],
                self@ == (ChatState { shown, cards: self.cards@, ..s }),
                self.screen@ == shown,
            decreases self.cards@.len() - j,
        {
            assert(s.cards[j as int].row + s.cards[j as int].body < end_of(s));
            if j == i {
                self.cards[j].body = n;
            } else if self.cards[j].row > row {
                proof {
                    if j < i {
                        assert(s.cards[j as int].row + s.cards[j as int].body < s.cards[i as int].row);
                    }
                    assert(s.cards[i as int].row + s.cards[i as int].body < s.cards[j as int].row);
                }
                let at = self.cards[j].row;
                self.cards[j].row = (at - was) + n;
            }
            j = j + 1;
        }
        let ghost moved = cards_resized(s.cards, i as int, n as int, flashed);
        proof {
            assert(self.cards@ =~= moved);
            crate::host::toolcards::lemma_resized_in_order(
                s.cards,
                i as int,
                n as int,
                flashed,
                end_of(s),
            );
        }
        let leg = &mut self.cards[i].legs[k];
        leg.result = Some(result);
        proof {
            crate::host::toolcards::lemma_same_places(moved, self@.cards);
            assert(in_order(moved, end_of(self@)));
        }
    }

    /// Draw what a call came back with: under its header, or at the end where it has no card. A
    /// conversation can hold the same result twice, and a second body would say it happened twice.
    fn replay_answer(&mut self, id: String, result: ToolResult, body: Vec<Row>)
        requires
            old(self).wf(),
            is_quiet(old(self)@),
        ensures
            final(self).wf(),
            is_quiet(final(self)@),
            ({
                let s = old(self)@;
                let now = final(self)@;
                let b = Block::Result(id, result, body);
                &&& now == (ChatState { shown: now.shown, cards: now.cards, ..s })
                &&& now.shown == shown_after(s, seq![], b, seq![], false, true)
                &&& holds_after(s, b, true, now.cards)
            }),
    {
        match find_call(&self.cards, id.as_str()) {
            Some((i, k)) => {
                if self.cards[i].legs[k].result.is_none() {
                    self.replay_result(i, k, result, body);
                }
            },
            None => {
                self.append(&body);
            },
        }
    }

    /// Draw a call's card, onto the run above when there is one and nothing has been drawn since.
    fn replay_call(&mut self, leg: Leg, grouped: bool, header: Row)
        requires
            old(self).wf(),
            is_quiet(old(self)@),
        ensures
            final(self).wf(),
            is_quiet(final(self)@),
            ({
                let s = old(self)@;
                let now = final(self)@;
                let b = Block::Call(leg, grouped, header);
                &&& now == (ChatState { shown: now.shown, cards: now.cards, ..s })
                &&& now.shown == (if joins(s, grouped) {
                    row_redrawn(s, s.cards.last().row as int, header@).shown
                } else {
                    appended(s, seq![header@]).shown
                })
                &&& holds_after(s, b, true, now.cards)
            }),
    {
        let ghost s = self@;
        if self.joins_run(grouped) {
            let i = self.cards.len() - 1;
            let row = self.cards[i].row;
            assert(s.cards[i as int].row + s.cards[i as int].body < end_of(s));
            self.replace_row(row, header);
            self.cards[i].legs.push(leg);
            proof {
                crate::host::toolcards::lemma_same_places(s.cards, self@.cards);
                assert(in_order(self@.cards, end_of(self@)));
                assert(self@.cards.drop_last() =~= s.cards.drop_last());
            }
            return;
        }
        let at = self.chat_end();
        let rows = vec![header];
        assert(rows_of(rows@) =~= seq![header@]);
        self.append(&rows);
        let ghost p = self@;
        self.cards.push(Card::new(leg, at));
        proof {
            let now = self@;
            assert(now.cards.drop_last() =~= s.cards);
            assert(in_order(now.cards, end_of(now))) by {
                assert forall|a: int, b: int| 0 <= a < b < now.cards.len() implies (
                #[trigger] now.cards[a]).row + now.cards[a].body < (#[trigger] now.cards[b]).row by {
                    assert(now.cards[a] == s.cards[a]);
                    assert(s.cards[a].row + s.cards[a].body < end_of(s));
                    if b < s.cards.len() {
                        assert(now.cards[b] == s.cards[b]);
                    }
                }
                assert forall|a: int| 0 <= a < now.cards.len() implies (#[trigger] now.cards[a]).row
                    + now.cards[a].body < end_of(now) by {
                    if a < s.cards.len() {
                        assert(now.cards[a] == s.cards[a]);
                        assert(s.cards[a].row + s.cards[a].body < end_of(s));
                    }
                }
            }
        }
    }
}

/// The rows of what was typed.
fn typed_rows(bar: &str, text: &str) -> (r: Vec<Row>)
    ensures
        rows_of(r@) == typed_lines(bar@, text@),
{
    let chars = chars_of(text);
    let ls = lines(chars.as_slice());
    let ghost want = lines_of(text@).map_values(|l: Seq<char>| barred(bar@, l));
    let mut r: Vec<Row> = Vec::new();
    let mut k: usize = 0;
    assert(slices(ls@).len() == ls@.len());
    assert(rows_of(r@) =~= want.take(0));
    while k < ls.len()
        invariant
            k <= ls@.len(),
            slices(ls@) == lines_of(text@),
            want == lines_of(text@).map_values(|l: Seq<char>| barred(bar@, l)),
            rows_of(r@) == want.take(k as int),
        decreases ls@.len() - k,
    {
        let row = crate::host::questions::barred_row(bar, ls[k]);
        let ghost one = row@;
        let ghost was = rows_of(r@);
        r.push(row);
        proof {
            assert(slices(ls@)[k as int] == ls@[k as int]@);
            assert(want[k as int] == one);
            assert(rows_of(r@) =~= was.push(one));
            assert(want.take(k + 1) =~= was.push(one));
        }
        k = k + 1;
    }
    assert(want.take(k as int) =~= want);
    let none = String::new();
    assert(none@ =~= seq![]);
    r.push(Row::bare(none));
    assert(rows_of(r@) =~= typed_lines(bar@, text@));
    r
}

/// What the rows that go with a piece of a conversation are drawn from.
#[derive(Debug)]
pub enum Ask {
    /// It brings no rows of its own.
    Nothing,
    /// A card's header, from how each of its calls went.
    Header(Vec<Standing>),
    /// What a call came back with, from what it was asked with: which piece that is, where the call
    /// has a card.
    Body(Option<usize>),
    /// What the turn before it changed, from the calls that count.
    Summary(Vec<usize>),
}

/// What the rows that go with a piece of a conversation are drawn from, as plain values.
pub enum Asked {
    Nothing,
    Header(Seq<Standing>),
    Body(Option<int>),
    Summary(Seq<int>),
}

impl View for Ask {
    type V = Asked;

    open spec fn view(&self) -> Asked {
        match self {
            Ask::Nothing => Asked::Nothing,
            Ask::Header(v) => Asked::Header(v@),
            Ask::Body(at) => Asked::Body(
                match at {
                    Some(i) => Some(*i as int),
                    None => None,
                },
            ),
            Ask::Summary(v) => Asked::Summary(v@.map_values(|i: usize| i as int)),
        }
    }
}

/// How each call went that a card's header speaks of once the call `id` is on it.
pub open spec fn headed_by(
    s: ChatState,
    history: Seq<Told>,
    id: Seq<char>,
    grouped: bool,
) -> Seq<Standing> {
    (if joins(s, grouped) {
        s.cards.last().legs@.map_values(|l: Leg| standing_of(history, l.id@))
    } else {
        seq![]
    }).push(standing_of(history, id))
}

/// What the rows that go with piece `n` of a conversation are drawn from.
pub open spec fn asked(
    s: ChatState,
    history: Seq<Told>,
    n: int,
    grouped: bool,
    show_tools: bool,
) -> Asked {
    match history[n] {
        Told::Call(id) => if show_tools {
            Asked::Header(headed_by(s, history, id@, grouped))
        } else {
            Asked::Nothing
        },
        Told::Result(id, result) => if show_tools {
            Asked::Body(called_before(history.take(n), id@))
        } else if result.is_error {
            Asked::Body(None)
        } else {
            Asked::Nothing
        },
        _ => if begins_turn(history.take(n + 1)) {
            Asked::Summary(counted_calls(history.take(n), show_tools))
        } else {
            Asked::Nothing
        },
    }
}

impl Replay {
    pub open spec fn wf(self) -> bool {
        self.chat.wf() && is_quiet(self.chat@)
    }

    /// How each call went that a card's header speaks of once the call `id` is on it. The whole
    /// conversation says, so that a header is right the first time.
    fn header_from(&self, history: &Vec<Told>, id: &str, grouped: bool) -> (r: Vec<Standing>)
        requires
            self.wf(),
        ensures
            r@ == headed_by(self.chat@, history@, id@, grouped),
    {
        let mut r: Vec<Standing> = if self.chat.joins_run(grouped) {
            heads(history, &self.chat.cards[self.chat.cards.len() - 1].legs)
        } else {
            Vec::new()
        };
        r.push(standing(history, id));
        assert(r@.drop_last() =~= (if joins(self.chat@, grouped) {
            self.chat@.cards.last().legs@.map_values(|l: Leg| standing_of(history@, l.id@))
        } else {
            seq![]
        }));
        assert(r@ =~= headed_by(self.chat@, history@, id@, grouped));
        r
    }

    /// What the rows that go with piece `n` of a conversation are drawn from. `grouped` says of a call
    /// whether it and the last one only look at things.
    pub fn asks(&self, history: &Vec<Told>, n: usize, grouped: bool, show_tools: bool) -> (r: Ask)
        requires
            self.wf(),
            n < history@.len(),
        ensures
            r@ == asked(self.chat@, history@, n as int, grouped, show_tools),
    {
        proof {
            assert(history@.take(n + 1).last() == history@[n as int]);
            if n > 0 {
                assert(history@.take(n + 1)[n - 1] == history@[n - 1]);
            }
        }
        match &history[n] {
            Told::Call(id) => if show_tools {
                Ask::Header(self.header_from(history, id.as_str(), grouped))
            } else {
                Ask::Nothing
            },
            Told::Result(id, result) => if show_tools {
                Ask::Body(find_called(history, n, id.as_str()))
            } else if result.is_error {
                Ask::Body(None)
            } else {
                Ask::Nothing
            },
            Told::Answer => Ask::Nothing,
            Told::Hidden => Ask::Nothing,
            _ => {
                let after_picture = n > 0 && match &history[n - 1] {
                    Told::Picture => true,
                    _ => false,
                };
                if after_picture {
                    Ask::Nothing
                } else {
                    Ask::Summary(summed_calls(history, n, show_tools))
                }
            },
        }
    }

    /// A conversation nothing of which has been drawn yet.
    pub fn new() -> (r: Replay)
        ensures
            r.wf(),
            !r.after_image,
            r.chat@.shown.lines.len() == 0,
            r.chat@.shown.marks.len() == 0,
            r.chat@.cards.len() == 0,
    {
        Replay { chat: Chat::new(), after_image: false }
    }

    /// Draw one more block. `summary` is what the turn being read has changed so far, which is shown
    /// where the next question starts; the answer says whether it was.
    pub fn step(&mut self, bar: &str, block: Block, summary: &Vec<Row>, show_tools: bool) -> (r: bool)
        requires
            old(self).wf(),
        ensures
            final(self).wf(),
            final(self).chat@.shown == shown_after(
                old(self).chat@,
                bar@,
                block,
                rows_of(summary@),
                old(self).after_image,
                show_tools,
            ),
            holds_after(old(self).chat@, block, show_tools, final(self).chat@.cards),
            final(self).after_image == (block is Image),
            r == ((block is Image || block is Question) && !old(self).after_image),
    {
        let was_image = self.after_image;
        self.after_image = false;
        let ghost s = self.chat@;
        match block {
            Block::Image(row) => {
                if !was_image {
                    self.chat.append_summary(summary);
                    self.chat.append_gap();
                }
                let chars = chars_of(row.as_str());
                let line = crate::host::questions::barred_row(bar, chars.as_slice());
                let ghost one = line@;
                let rows = vec![line];
                assert(rows_of(rows@) =~= seq![one]);
                self.chat.append(&rows);
                self.after_image = true;
                !was_image
            },
            Block::Question(text) => {
                if !was_image {
                    self.chat.append_summary(summary);
                    self.chat.append_gap();
                }
                let rows = typed_rows(bar, text.as_str());
                self.chat.append(&rows);
                !was_image
            },
            Block::Answer(text) => {
                self.chat.append_gap();
                self.chat.append_rendered(text.as_str());
                let rows = crate::host::chat::blank_rows(1);
                assert(rows_of(rows@) =~= seq![bare_line(seq![])]);
                self.chat.append(&rows);
                false
            },
            Block::Call(leg, grouped, header) => {
                if show_tools {
                    self.chat.replay_call(leg, grouped, header);
                }
                false
            },
            Block::Result(id, result, body) => {
                if result.is_error || show_tools {
                    self.chat.replay_answer(id, result, body);
                }
                false
            },
            Block::Hidden => false,
        }
    }

    /// The conversation is all drawn. The last turn is over too, unless it is still going; and where
    /// it was cut off by the workspace stopping, that is said where it stopped.
    pub fn finish(&mut self, summary: &Vec<Row>, running: bool, interrupted: bool, fail: &str)
        requires
            old(self).wf(),
        ensures
            final(self).wf(),
            final(self).chat@ == all_drawn(
                old(self).chat@,
                rows_of(summary@),
                running,
                interrupted,
                fail@,
            ),
    {
        if running {
            return;
        }
        self.chat.append_summary(summary);
        if interrupted {
            self.chat.append_gap();
            let text = crate::words::concat(
                fail,
                " the workspace stopped while this turn was running",
            );
            let row = Row::plain(text, "Diagnostic.Error");
            let ghost one = row@;
            let rows = vec![row];
            assert(rows_of(rows@) =~= seq![one]);
            self.chat.append(&rows);
        }
    }
}

/// A block to draw, and what the turn it belongs to has changed by then.
pub type Piece = (Block, Vec<Row>);

/// Whether a transcript holds nothing.
pub open spec fn is_empty(s: ChatState) -> bool {
    s.shown.lines.len() == 0 && s.shown.marks.len() == 0 && s.cards.len() == 0 && is_quiet(s)
}

/// Whether the block before the `i`th is a picture.
pub open spec fn follows_image(pieces: Seq<Piece>, i: int) -> bool {
    0 < i <= pieces.len() && pieces[i - 1].0 is Image
}

/// Whether one transcript is another with the `i`th block drawn.
pub open spec fn is_drawn_next(
    a: ChatState,
    bar: Seq<char>,
    pieces: Seq<Piece>,
    i: int,
    show_tools: bool,
    b: ChatState,
) -> bool {
    &&& b.shown == shown_after(
        a,
        bar,
        pieces[i].0,
        rows_of(pieces[i].1@),
        follows_image(pieces, i),
        show_tools,
    )
    &&& holds_after(a, pieces[i].0, show_tools, b.cards)
    &&& is_quiet(b)
}

/// Whether these are the transcripts a conversation goes through as it is drawn, block by block.
pub open spec fn is_replay(
    states: Seq<ChatState>,
    bar: Seq<char>,
    pieces: Seq<Piece>,
    show_tools: bool,
) -> bool {
    &&& states.len() == pieces.len() + 1
    &&& is_empty(states[0])
    &&& forall|i: int|
        0 <= i < pieces.len() ==> is_drawn_next(
            #[trigger] states[i],
            bar,
            pieces,
            i,
            show_tools,
            states[i + 1],
        )
}

/// The transcript of a conversation that is all drawn: with what its last turn changed, unless that
/// is still going, and with a line saying so where the workspace stopped under it.
pub open spec fn all_drawn(
    s: ChatState,
    summary: Seq<Line>,
    running: bool,
    interrupted: bool,
    fail: Seq<char>,
) -> ChatState {
    let over = if running {
        s
    } else {
        summarised(s, summary)
    };
    if interrupted && !running {
        appended(
            gap_added(over),
            seq![one_colour(
                fail + " the workspace stopped while this turn was running"@,
                "Diagnostic.Error",
            )],
        )
    } else {
        over
    }
}

/// Draw a whole conversation, in the same shape the live stream gives it.
pub fn transcript(
    bar: &str,
    pieces: Vec<Piece>,
    summary: &Vec<Row>,
    show_tools: bool,
    running: bool,
    interrupted: bool,
    fail: &str,
) -> (r: Chat)
    ensures
        r.wf(),
        is_quiet(r@),
        exists|states: Seq<ChatState>|
            #[trigger] is_replay(states, bar@, pieces@, show_tools) && r@ == all_drawn(
                states.last(),
                rows_of(summary@),
                running,
                interrupted,
                fail@,
            ),
{
    let ghost all = pieces@;
    let mut left = pieces;
    let mut replay = Replay::new();
    let ghost mut states: Seq<ChatState> = seq![replay.chat@];
    assert(all.skip(0) =~= all);
    while left.len() > 0
        invariant
            replay.wf(),
            0 < states.len() <= all.len() + 1,
            left@ == all.skip(states.len() - 1),
            replay.after_image == follows_image(all, states.len() - 1),
            replay.chat@ == states.last(),
            is_empty(states[0]),
            forall|i: int|
                0 <= i < states.len() - 1 ==> is_drawn_next(
                    #[trigger] states[i],
                    bar@,
                    all,
                    i,
                    show_tools,
                    states[i + 1],
                ),
        decreases left@.len(),
    {
        let ghost n = states.len() - 1;
        let ghost was = states;
        assert(left@[0] == all[n]);
        let (block, changed) = left.remove(0);
        assert(left@ =~= all.skip(n + 1));
        replay.step(bar, block, &changed, show_tools);
        proof {
            states = states.push(replay.chat@);
            assert forall|i: int| 0 <= i < states.len() - 1 implies is_drawn_next(
                #[trigger] states[i],
                bar@,
                all,
                i,
                show_tools,
                states[i + 1],
            ) by {
                assert(states[i] == was[i]);
                if i < n {
                    assert(states[i + 1] == was[i + 1]);
                }
            }
        }
    }
    replay.finish(summary, running, interrupted, fail);
    proof {
        assert(states.len() == all.len() + 1);
        assert(is_replay(states, bar@, all, show_tools));
    }
    replay.chat
}

} // verus!
