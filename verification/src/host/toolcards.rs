//! Drawing tool cards: a header when a call starts, its answer under it when it comes back.

use crate::host::cards::{all_back, call_among, find_call, in_order, Card, Leg, ToolResult};
use crate::host::chat::{closed, end_of, pushed, sound, Chat, ChatState};
use crate::host::screen::{replaced_rows, row_texts, rows_of, Line, Mark, Row, Shown};
use vstd::prelude::*;

verus! {

/// The card a new call could join: the last one drawn, if nothing has been drawn since.
pub open spec fn open_run(s: ChatState) -> bool {
    s.cards.len() > 0 && s.cards.last().row + s.cards.last().body + 1 == end_of(s)
}

/// Whether a new call joins the card above it.
pub open spec fn joins(s: ChatState, grouped: bool) -> bool {
    open_run(s) && !s.cards.last().expanded && s.cards.last().legs@.len() > 0 && grouped
}

/// The transcript with one row drawn again in its place.
pub open spec fn row_redrawn(s: ChatState, row: int, line: Line) -> ChatState {
    ChatState { shown: replaced_rows(s.shown, row, row + 1, seq![line]), ..s }
}

/// Where a card's rows end once its body has `n` of them.
pub open spec fn resized(c: Card, row: int, was: int, n: int) -> Card {
    if c.row > row {
        Card { row: (c.row + n - was) as usize, ..c }
    } else {
        c
    }
}

/// The cards once card `i` has a body of `n` rows: every card below moves with the rows.
pub open spec fn cards_resized(cards: Seq<Card>, i: int, n: int, flashed: bool) -> Seq<Card> {
    let c = cards[i];
    Seq::new(
        cards.len(),
        |j: int|
            if j == i {
                Card { body: n as usize, flashed, ..c }
            } else {
                resized(cards[j], c.row as int, c.body as int, n)
            },
    )
}

/// The transcript with card `i` drawn again: its header, and its body under it. A card whose calls
/// are all back lands once, and its row says so.
pub open spec fn card_redrawn(s: ChatState, i: int, header: Line, body: Seq<Line>) -> ChatState {
    let c = closed(s);
    let card = c.cards[i];
    let row = card.row as int;
    let lands = all_back(card.legs@) && !card.flashed;
    let drawn = replaced_rows(c.shown, row, row + 1 + card.body, seq![header] + body);
    let n = body.len() as int;
    ChatState {
        shown: if lands {
            Shown {
                lines: drawn.lines,
                marks: drawn.marks.push(
                    Mark { row: card.row, span: None, hl: "Agent.ToolLanded" },
                ),
            }
        } else {
            drawn
        },
        cards: cards_resized(c.cards, i, n, card.flashed || lands),
        streaming: None,
        unanswered: match c.unanswered {
            Some(u) => Some(
                if u > row {
                    u + n - card.body
                } else {
                    u
                },
            ),
            None => None,
        },
        ..c
    }
}

/// Whether `now` is the transcript with one more call on a card: on the card above it where it joins
/// that, and on one of its own otherwise, with nothing under it yet.
pub open spec fn card_begun(
    s: ChatState,
    leg: Leg,
    grouped: bool,
    header: Line,
    now: ChatState,
) -> bool {
    if joins(s, grouped) {
        let last = s.cards.last();
        &&& now.shown == row_redrawn(s, last.row as int, header).shown
        &&& now.cards.len() == s.cards.len()
        &&& now.cards.drop_last() == s.cards.drop_last()
        &&& now.cards.last().legs@ == last.legs@.push(leg)
        &&& now.cards.last().row == last.row
        &&& now.cards.last().body == last.body
        &&& now.cards.last().expanded == last.expanded
        &&& now.cards.last().flashed == last.flashed
        &&& now == (ChatState { shown: now.shown, cards: now.cards, ..s })
    } else {
        let p = pushed(s, seq![header]);
        &&& now == (ChatState { cards: now.cards, ..p })
        &&& now.cards.len() == p.cards.len() + 1
        &&& now.cards.drop_last() == p.cards
        &&& now.cards.last().legs@ == seq![leg]
        &&& now.cards.last().row == end_of(closed(s))
        &&& now.cards.last().body == 0
        &&& !now.cards.last().expanded
        &&& !now.cards.last().flashed
    }
}

/// Whether these are the cards once call `k` of card `i` has come back: it has its result, what it
/// exited with where that was a failure, and how long it took where that was seen.
pub open spec fn call_finished(
    was: Seq<Card>,
    i: int,
    k: int,
    result: ToolResult,
    clock: u64,
    exit: Option<i64>,
    is: Seq<Card>,
) -> bool {
    let leg = was[i].legs@[k];
    &&& is.len() == was.len()
    &&& forall|j: int| 0 <= j < is.len() && j != i ==> #[trigger] is[j] == was[j]
    &&& is[i] == (Card { legs: is[i].legs, ..was[i] })
    &&& is[i].legs@ == was[i].legs@.update(
        k,
        Leg {
            result: Some(result),
            exit: if result.is_error {
                exit
            } else {
                None
            },
            took: match leg.started {
                Some(at) => Some(
                    if clock >= at {
                        (clock - at) as u64
                    } else {
                        0u64
                    },
                ),
                None => None,
            },
            ..leg
        },
    )
}

/// What became of a result.
#[derive(Debug, Clone, Copy)]
pub enum Finished {
    /// It is on this card, which has to be drawn again.
    Redraw(usize),
    /// It was there already. A replay can meet the same result twice, and a second body would say
    /// it happened twice.
    Already,
    /// No card is waiting for it.
    Loose,
}

impl Chat {
    /// Whether a new call joins the card above it. *Still the last thing* is the whole condition: a
    /// run is calls with nothing between them.
    pub fn joins_run(&self, grouped: bool) -> (r: bool)
        requires
            self.wf(),
        ensures
            r == joins(self@, grouped),
    {
        let n = self.cards.len();
        if n == 0 {
            return false;
        }
        let end = self.chat_end();
        let last = &self.cards[n - 1];
        assert(self@.cards[n - 1].row + self@.cards[n - 1].body < end);
        last.row + last.body + 1 == end && last.takes(grouped)
    }

    /// Put one row back where it was, marks and all. Nothing below moves.
    pub fn replace_row(&mut self, row: usize, line: Row)
        requires
            old(self).wf(),
            row < end_of(old(self)@),
        ensures
            final(self).wf(),
            final(self)@ == row_redrawn(old(self)@, row as int, line@),
            end_of(final(self)@) == end_of(old(self)@),
            final(self).answer == old(self).answer,
            final(self).cards == old(self).cards,
    {
        let total = self.screen.lines.len();
        assert(self@.shown.lines.len() == total);
        let rows = vec![line];
        assert(rows_of(rows@) =~= seq![line@]);
        self.screen.set_rows(row, row + 1, &rows);
        assert(self@.shown.lines.len() == self.screen.lines@.len());
    }

    /// Draw one tool call's card, with nothing under it yet, and answer with its row. `grouped`
    /// says whether the call and the last one both only look at things; `header` is what the card's
    /// row says with this call on it. Nothing is drawn when cards are switched off.
    pub fn draw_tool_card(
        &mut self,
        leg: Leg,
        grouped: bool,
        header: Row,
        show_tools: bool,
    ) -> (r: Option<usize>)
        requires
            old(self).wf(),
        ensures
            final(self).wf(),
            !show_tools ==> r is None && *final(self) == *old(self),
            show_tools ==> {
                &&& r == Some(
                    if joins(old(self)@, grouped) {
                        old(self)@.cards.last().row
                    } else {
                        end_of(closed(old(self)@)) as usize
                    },
                )
                &&& card_begun(old(self)@, leg, grouped, header@, final(self)@)
            },
    {
        if !show_tools {
            return None;
        }
        let ghost s = self@;
        if self.joins_run(grouped) {
            let i = self.cards.len() - 1;
            let row = self.cards[i].row;
            assert(s.cards[i as int].row + s.cards[i as int].body < end_of(s));
            self.replace_row(row, header);
            let ghost before = self@;
            self.cards[i].legs.push(leg);
            proof {
                let now = self@;
                assert(now.cards.drop_last() =~= s.cards.drop_last());
                assert(in_order(now.cards, end_of(now))) by {
                    assert forall|a: int, b: int| 0 <= a < b < now.cards.len() implies (
                    #[trigger] now.cards[a]).row + now.cards[a].body < (
                    #[trigger] now.cards[b]).row by {
                        assert(s.cards[a].row + s.cards[a].body < s.cards[b].row);
                    }
                    assert forall|a: int| 0 <= a < now.cards.len() implies (
                    #[trigger] now.cards[a]).row + now.cards[a].body < end_of(now) by {
                        assert(s.cards[a].row + s.cards[a].body < end_of(s));
                    }
                }
                if now.answer is Some {
                    let start = now.answer->0.start;
                    assert forall|a: int| 0 <= a < now.cards.len() implies (
                    #[trigger] now.cards[a]).row + now.cards[a].body < start by {
                        assert(s.cards[a].row + s.cards[a].body < start);
                    }
                }
                if now.unanswered is Some {
                    let u = now.unanswered->0;
                    assert forall|a: int| 0 <= a < now.cards.len() implies (
                    #[trigger] now.cards[a]).row + now.cards[a].body < u by {
                        assert(s.cards[a].row + s.cards[a].body < u);
                    }
                }
            }
            return Some(row);
        }
        // No blank row above it: a card is already a header at column zero with its body indented
        // under a corner, and a run of actions reads as a list without paying a row for every one.
        let rows = vec![header];
        assert(rows_of(rows@) =~= seq![header@]);
        let row = self.chat_push(&rows);
        let ghost p = self@;
        self.cards.push(Card::new(leg, row));
        proof {
            let now = self@;
            let c = closed(s);
            assert(now.cards.drop_last() =~= p.cards);
            assert(p.cards == c.cards);
            assert(self@.shown.lines.len() == self.screen.lines@.len());
            assert(end_of(now) == end_of(c) + 1);
            assert(in_order(now.cards, end_of(now))) by {
                assert forall|a: int, b: int| 0 <= a < b < now.cards.len() implies (
                #[trigger] now.cards[a]).row + now.cards[a].body < (#[trigger] now.cards[b]).row by {
                    assert(now.cards[a] == c.cards[a]);
                    assert(c.cards[a].row + c.cards[a].body < end_of(c));
                    if b < c.cards.len() {
                        assert(now.cards[b] == c.cards[b]);
                    }
                }
                assert forall|a: int| 0 <= a < now.cards.len() implies (#[trigger] now.cards[a]).row
                    + now.cards[a].body < end_of(now) by {
                    if a < c.cards.len() {
                        assert(now.cards[a] == c.cards[a]);
                        assert(c.cards[a].row + c.cards[a].body < end_of(c));
                    }
                }
            }
        }
        Some(row)
    }

    /// The call came back: put its result with it, and say which card has to be drawn again.
    pub fn finish_card(&mut self, id: &str, result: ToolResult, now: u64, exit: Option<i64>) -> (r:
        Finished)
        requires
            old(self).wf(),
        ensures
            final(self).wf(),
            final(self)@ == (ChatState { cards: final(self)@.cards, ..old(self)@ }),
            match call_among(old(self)@.cards, id@) {
                None => r is Loose && final(self)@.cards == old(self)@.cards,
                Some((i, k)) => {
                    if old(self)@.cards[i].legs@[k].result is Some {
                        r is Already && final(self)@.cards == old(self)@.cards
                    } else {
                        &&& r == Finished::Redraw(i as usize)
                        &&& call_finished(
                            old(self)@.cards,
                            i,
                            k,
                            result,
                            now,
                            exit,
                            final(self)@.cards,
                        )
                    }
                },
            },
    {
        let ghost s = self@;
        match find_call(&self.cards, id) {
            None => Finished::Loose,
            Some((i, k)) => {
                if self.cards[i].legs[k].result.is_some() {
                    return Finished::Already;
                }
                let took = match self.cards[i].legs[k].started {
                    Some(at) => Some(now.saturating_sub(at)),
                    None => None,
                };
                let failed = result.is_error;
                let leg = &mut self.cards[i].legs[k];
                leg.took = took;
                leg.exit = if failed {
                    exit
                } else {
                    None
                };
                leg.result = Some(result);
                proof {
                    lemma_same_places(s.cards, self@.cards);
                }
                Finished::Redraw(i)
            },
        }
    }

    /// Draw card `i` again from what it knows: the header in its final state, the body folded or
    /// open as the card says. Rows below move to make room, and the registry moves with them.
    pub fn redraw_card(&mut self, i: usize, header: Row, body: Vec<Row>)
        requires
            old(self).wf(),
            i < old(self)@.cards.len(),
        ensures
            final(self).wf(),
            final(self)@ == card_redrawn(old(self)@, i as int, header@, rows_of(body@)),
    {
        // An open answer is always below every card, so settling it moves nothing recorded here.
        self.close_answer();
        self.streaming = None;
        let ghost c = self@;
        let row = self.cards[i].row;
        let was = self.cards[i].body;
        let n = body.len();
        let ghost under = rows_of(body@);
        assert(under.len() == n);
        let total = self.screen.lines.len();
        proof {
            assert(c.shown.lines.len() == total);
            assert(c.cards[i as int].row + c.cards[i as int].body < end_of(c));
        }
        let mut body = body;
        let ghost head = header@;
        let mut rows = vec![header];
        assert(rows_of(rows@) =~= seq![head]);
        rows.append(&mut body);
        assert(rows_of(rows@) =~= seq![head] + under);
        self.screen.set_rows(row, row + 1 + was, &rows);
        let total = self.screen.lines.len();
        assert(self@.shown.lines.len() == total);
        // A landing is an arrival rather than a redraw, and it happens once.
        let lands = self.cards[i].settled() && !self.cards[i].flashed;
        if lands {
            self.screen.band(row, "Agent.ToolLanded");
        }
        let flashed = self.cards[i].flashed || lands;
        let ghost shown = self.screen@;
        assert(shown.lines.len() == total);
        let ghost grown = c.shown.lines.len() + n - was;
        assert(total == grown);
        let mut j: usize = 0;
        while j < self.cards.len()
            invariant
                j <= self.cards@.len(),
                self.cards@.len() == c.cards.len(),
                i < c.cards.len(),
                row == c.cards[i as int].row,
                was == c.cards[i as int].body,
                sound(c),
                total == c.shown.lines.len() + n - was,
                forall|k: int|
                    0 <= k < j ==> #[trigger] self.cards@[k] == cards_resized(
                        c.cards,
                        i as int,
                        n as int,
                        flashed,
                    )[k],
                forall|k: int| j <= k < c.cards.len() ==> #[trigger] self.cards@[k] == c.cards[k],
                self@ == (ChatState { shown, cards: self.cards@, ..c }),
                self.screen@ == shown,
            decreases self.cards@.len() - j,
        {
            assert(c.cards[j as int].row + c.cards[j as int].body < end_of(c));
            if j == i {
                self.cards[j].body = n;
                self.cards[j].flashed = flashed;
            } else if self.cards[j].row > row {
                proof {
                    if j < i {
                        assert(c.cards[j as int].row + c.cards[j as int].body < c.cards[i as int].row);
                    }
                    assert(c.cards[i as int].row + c.cards[i as int].body < c.cards[j as int].row);
                }
                let at = self.cards[j].row;
                self.cards[j].row = (at - was) + n;
            }
            j = j + 1;
        }
        // And the trailing question moves with them. A call can come back *after* something was
        // steered in, and a body opening above the question shifts it down like every other row.
        if let Some(u) = self.unanswered {
            if u > row {
                proof {
                    assert(c.cards[i as int].row + c.cards[i as int].body < u);
                }
                self.unanswered = Some((u - was) + n);
            }
        }
        proof {
            assert(self.cards@ =~= cards_resized(c.cards, i as int, n as int, flashed));
            lemma_resized_in_order(c.cards, i as int, n as int, flashed, end_of(c));
            if c.unanswered is Some {
                lemma_resized_in_order(c.cards, i as int, n as int, flashed, c.unanswered->0);
            }
        }
    }

    /// Open or fold a card whose calls are all back, and answer with the row its header is on. A
    /// card that is still running has nothing to show yet.
    pub fn toggle_card(&mut self, i: usize) -> (r: Option<usize>)
        requires
            old(self).wf(),
            i < old(self)@.cards.len(),
        ensures
            final(self).wf(),
            final(self)@ == (ChatState { cards: final(self)@.cards, ..old(self)@ }),
            if all_back(old(self)@.cards[i as int].legs@) {
                &&& r == Some(old(self)@.cards[i as int].row)
                &&& final(self)@.cards == old(self)@.cards.update(
                    i as int,
                    Card {
                        expanded: !old(self)@.cards[i as int].expanded,
                        ..old(self)@.cards[i as int]
                    },
                )
            } else {
                r is None && final(self)@.cards == old(self)@.cards
            },
    {
        let ghost s = self@;
        if !self.cards[i].settled() {
            return None;
        }
        let open = self.cards[i].expanded;
        self.cards[i].expanded = !open;
        proof {
            lemma_same_places(s.cards, self@.cards);
        }
        Some(self.cards[i].row)
    }
}

/// Cards that stand where others stood are in order where those were.
pub proof fn lemma_same_places(a: Seq<Card>, b: Seq<Card>)
    requires
        a.len() == b.len(),
        forall|i: int|
            0 <= i < a.len() ==> (#[trigger] a[i]).row == b[i].row && a[i].body == b[i].body,
    ensures
        forall|end: int| in_order(a, end) ==> #[trigger] in_order(b, end),
{
    assert forall|end: int| in_order(a, end) implies #[trigger] in_order(b, end) by {
        assert forall|i: int, j: int| 0 <= i < j < b.len() implies (#[trigger] b[i]).row
            + b[i].body < (#[trigger] b[j]).row by {
            assert(a[i].row + a[i].body < a[j].row);
        }
        assert forall|i: int| 0 <= i < b.len() implies (#[trigger] b[i]).row + b[i].body < end by {
            assert(a[i].row + a[i].body < end);
        }
    }
}

pub proof fn lemma_resized_in_order(cards: Seq<Card>, i: int, n: int, flashed: bool, end: int)
    requires
        in_order(cards, end),
        0 <= i < cards.len(),
        0 <= n,
        end + n - cards[i].body <= usize::MAX,
    ensures
        in_order(cards_resized(cards, i, n, flashed), end + n - cards[i].body),
{
    let v = cards_resized(cards, i, n, flashed);
    let c = cards[i];
    assert(c.row + c.body < end);
    assert forall|a: int, b: int| 0 <= a < b < v.len() implies (#[trigger] v[a]).row + v[a].body < (
    #[trigger] v[b]).row by {
        assert(cards[a].row + cards[a].body < cards[b].row);
        assert(cards[b].row + cards[b].body < end);
        if a < i {
            assert(cards[a].row + cards[a].body < cards[i].row);
        }
        if i < b {
            assert(cards[i].row + cards[i].body < cards[b].row);
        }
        if i < a {
            assert(cards[i].row + cards[i].body < cards[a].row);
        }
        if b < i {
            assert(cards[b].row + cards[b].body < cards[i].row);
        }
    }
    assert forall|a: int| 0 <= a < v.len() implies (#[trigger] v[a]).row + v[a].body < end + n
        - c.body by {
        assert(cards[a].row + cards[a].body < end);
        if a < i {
            assert(cards[a].row + cards[a].body < cards[i].row);
        } else if a > i {
            assert(cards[i].row + cards[i].body < cards[a].row);
        }
    }
}

/// Opening or folding one card never changes what another card's header says: every card is still
/// where the registry says it is.
pub proof fn every_other_card_keeps_its_row(
    s: ChatState,
    i: int,
    header: Line,
    body: Seq<Line>,
    j: int,
)
    requires
        sound(s),
        s.answer is None,
        0 <= i < s.cards.len(),
        0 <= j < s.cards.len(),
        i != j,
        s.shown.lines.len() + body.len() <= usize::MAX,
    ensures
        ({
            let after = card_redrawn(s, i, header, body);
            after.shown.lines[after.cards[j].row as int] == s.shown.lines[s.cards[j].row as int]
        }),
{
    let c = s.cards[i];
    let after = card_redrawn(s, i, header, body);
    let row = c.row as int;
    let lines = s.shown.lines.take(row) + row_texts(seq![header] + body) + s.shown.lines.skip(
        row + 1 + c.body,
    );
    assert(after.shown.lines == lines);
    assert(s.cards[i].row + s.cards[i].body < end_of(s));
    assert(s.cards[j].row + s.cards[j].body < end_of(s));
    if j < i {
        assert(s.cards[j].row + s.cards[j].body < s.cards[i].row);
        assert(after.cards[j] == s.cards[j]);
    } else {
        assert(s.cards[i].row + s.cards[i].body < s.cards[j].row);
        assert(after.cards[j].row == s.cards[j].row + body.len() - c.body);
    }
}

} // verus!
