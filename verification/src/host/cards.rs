//! The tool cards in the transcript on screen, in row order.
//!
//! A body goes *under its own header*, not at the end of the transcript: calls run in parallel, so
//! the result of the first can arrive after the header of the third. Inserting it moves every row
//! below, which is why each card's row lives here rather than with whoever drew it.

use crate::text::same_text;
use vstd::prelude::*;

verus! {

/// What a call came back with.
#[derive(Debug)]
pub struct ToolResult {
    pub content: String,
    pub is_error: bool,
}

/// How one call is going.
#[derive(Debug, Clone, Copy, PartialEq, Eq, Structural)]
pub enum ToolState {
    Running,
    Done,
    Failed,
}

/// One call a card is holding: what was asked, and what came back.
#[derive(Debug)]
pub struct Leg {
    pub id: String,
    pub name: String,
    /// What it was asked with, as it was written.
    pub input: String,
    pub result: Option<ToolResult>,
    /// When the call started, in nanoseconds of the workspace's clock, for a card that was here to
    /// see it start.
    pub started: Option<u64>,
    /// How long it took, once it came back.
    pub took: Option<u64>,
    /// What a failed call exited with, when its output said.
    pub exit: Option<i64>,
}

impl Leg {
    /// How one call is going. A call with a result is finished and one without is running, and
    /// there is no third source of truth to fall out of step with.
    pub open spec fn stands(self) -> ToolState {
        match self.result {
            Some(r) => if r.is_error {
                ToolState::Failed
            } else {
                ToolState::Done
            },
            None => ToolState::Running,
        }
    }

    pub fn state(&self) -> (r: ToolState)
        ensures
            r == self.stands(),
    {
        match &self.result {
            Some(r) => if r.is_error {
                ToolState::Failed
            } else {
                ToolState::Done
            },
            None => ToolState::Running,
        }
    }

    /// How long a call has been going: what it took once it is back, and until then the time since
    /// it started.
    pub open spec fn so_far(self, now: u64) -> Option<u64> {
        if self.took is Some {
            self.took
        } else {
            match self.started {
                Some(at) => Some(
                    if now >= at {
                        (now - at) as u64
                    } else {
                        0u64
                    },
                ),
                None => None,
            }
        }
    }

    /// How long a call has been going.
    pub fn clock(&self, now: u64) -> (r: Option<u64>)
        ensures
            r == self.so_far(now),
    {
        match (self.took, self.started) {
            (Some(t), _) => Some(t),
            (None, Some(at)) => Some(now.saturating_sub(at)),
            (None, None) => None,
        }
    }
}

/// A tool card on screen: where it is, and what it shows.
///
/// Usually one call. A *run* of calls that only looked at things, one after another with nothing
/// drawn between them, shares a card.
#[derive(Debug)]
pub struct Card {
    /// One, or a run of read-only calls, in the order they were made.
    pub legs: Vec<Leg>,
    /// The header's row.
    pub row: usize,
    /// How many rows the body takes under it.
    pub body: usize,
    /// Whether the body is the whole of it or the first few rows.
    pub expanded: bool,
    /// Whether this card has already had its moment. A landing is an event, and an event happens
    /// once.
    pub flashed: bool,
}

/// Whether one of some calls answers to `id`, and which: the last if several do.
pub open spec fn leg_among(legs: Seq<Leg>, id: Seq<char>) -> Option<int>
    decreases legs.len(),
{
    if legs.len() == 0 {
        None
    } else if legs.last().id@ == id {
        Some(legs.len() - 1)
    } else {
        leg_among(legs.drop_last(), id)
    }
}

/// Whether every one of some calls has come back.
pub open spec fn all_back(legs: Seq<Leg>) -> bool {
    forall|i: int| 0 <= i < legs.len() ==> (#[trigger] legs[i]).result is Some
}

impl Card {
    pub fn new(leg: Leg, row: usize) -> (r: Card)
        ensures
            r.legs@ == seq![leg],
            r.row == row,
            r.body == 0,
            !r.expanded,
            !r.flashed,
    {
        let legs = vec![leg];
        assert(legs@ =~= seq![leg]);
        Card { legs, row, body: 0, expanded: false, flashed: false }
    }

    /// Whether this card holds a call answering to `id`, and which one.
    pub fn leg_of(&self, id: &str) -> (r: Option<usize>)
        ensures
            match r {
                Some(k) => k < self.legs@.len() && leg_among(self.legs@, id@) == Some(k as int),
                None => leg_among(self.legs@, id@) is None,
            },
    {
        let mut i: usize = self.legs.len();
        assert(self.legs@.take(i as int) =~= self.legs@);
        while i > 0
            invariant
                i <= self.legs@.len(),
                leg_among(self.legs@, id@) == leg_among(self.legs@.take(i as int), id@),
            decreases i,
        {
            assert(self.legs@.take(i as int).drop_last() =~= self.legs@.take(i - 1));
            if same_text(self.legs[i - 1].id.as_str(), id) {
                return Some(i - 1);
            }
            i = i - 1;
        }
        None
    }

    /// Whether every call on this card has come back.
    pub fn settled(&self) -> (r: bool)
        ensures
            r == all_back(self.legs@),
    {
        let mut i: usize = 0;
        while i < self.legs.len()
            invariant
                i <= self.legs@.len(),
                forall|j: int| 0 <= j < i ==> (#[trigger] self.legs@[j]).result is Some,
            decreases self.legs@.len() - i,
        {
            if self.legs[i].result.is_none() {
                return false;
            }
            i = i + 1;
        }
        true
    }

    /// Whether a call could join this card. Both sides have to be calls that only looked at
    /// something, which is what `grouped` says, and a card whose body is already open is one the
    /// reader has opened, and growing it under them would move what they were reading.
    pub fn takes(&self, grouped: bool) -> (r: bool)
        ensures
            r == (!self.expanded && self.legs@.len() > 0 && grouped),
    {
        !self.expanded && self.legs.len() > 0 && grouped
    }
}

/// Each card is over before the next begins, and the last before `end`.
pub open spec fn in_order(cards: Seq<Card>, end: int) -> bool {
    &&& forall|i: int, j: int|
        0 <= i < j < cards.len() ==> (#[trigger] cards[i]).row + cards[i].body < (
        #[trigger] cards[j]).row
    &&& forall|i: int| 0 <= i < cards.len() ==> (#[trigger] cards[i]).row + cards[i].body < end
}

/// A card that has moved down by `n` rows if it was at or below `at`.
pub open spec fn lowered(c: Card, at: int, n: int) -> Card {
    if c.row >= at {
        Card { row: (c.row + n) as usize, ..c }
    } else {
        c
    }
}

/// Every card at or below `at`, `n` rows further down.
pub open spec fn all_lowered(cards: Seq<Card>, at: int, n: int) -> Seq<Card> {
    cards.map_values(|c: Card| lowered(c, at, n))
}

/// Move every card at or below `at` down by `n` rows.
pub fn lower_cards(cards: &mut Vec<Card>, at: usize, n: usize, total: usize)
    requires
        in_order(old(cards)@, total - n),
        n <= total,
    ensures
        final(cards)@ == all_lowered(old(cards)@, at as int, n as int),
{
    let ghost given = cards@;
    let mut i: usize = 0;
    while i < cards.len()
        invariant
            i <= cards@.len(),
            cards@.len() == given.len(),
            n <= total,
            in_order(given, total - n),
            forall|j: int| 0 <= j < i ==> #[trigger] cards@[j] == lowered(given[j], at as int, n as int),
            forall|j: int| i <= j < given.len() ==> #[trigger] cards@[j] == given[j],
        decreases cards@.len() - i,
    {
        if cards[i].row >= at {
            let row = cards[i].row;
            assert(given[i as int].row + given[i as int].body < total - n);
            cards[i].row = row + n;
        }
        i = i + 1;
    }
    assert(cards@ =~= all_lowered(given, at as int, n as int));
}

/// The first card whose header or body is on `row`.
pub open spec fn card_on(cards: Seq<Card>, row: int) -> Option<int>
    decreases cards.len(),
{
    if cards.len() == 0 {
        None
    } else {
        match card_on(cards.drop_last(), row) {
            Some(i) => Some(i),
            None => if cards.last().row <= row <= cards.last().row + cards.last().body {
                Some(cards.len() - 1)
            } else {
                None
            },
        }
    }
}

proof fn lemma_card_on(cards: Seq<Card>, row: int, n: int)
    requires
        0 <= n <= cards.len(),
        card_on(cards.take(n), row) is Some,
    ensures
        card_on(cards, row) == card_on(cards.take(n), row),
    decreases cards.len(),
{
    if n == cards.len() {
        assert(cards.take(n) =~= cards);
    } else {
        assert(cards.drop_last().take(n) =~= cards.take(n));
        lemma_card_on(cards.drop_last(), row, n);
    }
}

/// The card whose header or body is on `row`.
pub fn card_at(cards: &Vec<Card>, row: usize, end: usize) -> (r: Option<usize>)
    requires
        in_order(cards@, end as int),
    ensures
        match r {
            Some(i) => i < cards@.len() && card_on(cards@, row as int) == Some(i as int)
                && cards@[i as int].row <= row <= cards@[i as int].row + cards@[i as int].body,
            None => card_on(cards@, row as int) is None,
        },
{
    let mut i: usize = 0;
    assert(cards@.take(0) =~= seq![]);
    while i < cards.len()
        invariant
            i <= cards@.len(),
            in_order(cards@, end as int),
            card_on(cards@.take(i as int), row as int) is None,
        decreases cards@.len() - i,
    {
        proof {
            assert(cards@.take(i + 1).drop_last() =~= cards@.take(i as int));
            assert(cards@.take(i + 1).last() == cards@[i as int]);
            assert(cards@[i as int].row + cards@[i as int].body < end);
        }
        if cards[i].row <= row && row <= cards[i].row + cards[i].body {
            proof {
                lemma_card_on(cards@, row as int, i + 1);
            }
            return Some(i);
        }
        i = i + 1;
    }
    assert(cards@.take(i as int) =~= cards@);
    None
}

/// No row belongs to two cards.
pub proof fn a_row_belongs_to_one_card(cards: Seq<Card>, end: int, i: int, row: int)
    requires
        in_order(cards, end),
        0 <= i < cards.len(),
        cards[i].row <= row <= cards[i].row + cards[i].body,
    ensures
        card_on(cards, row) == Some(i),
    decreases cards.len(),
{
    let n = cards.len() - 1;
    let less = cards.drop_last();
    assert(in_order(less, end)) by {
        assert forall|a: int, b: int| 0 <= a < b < less.len() implies (#[trigger] less[a]).row
            + less[a].body < (#[trigger] less[b]).row by {
            assert(less[a] == cards[a] && less[b] == cards[b]);
        }
        assert forall|a: int| 0 <= a < less.len() implies (#[trigger] less[a]).row + less[a].body
            < end by {
            assert(less[a] == cards[a]);
        }
    }
    if i < n {
        assert(less[i] == cards[i]);
        a_row_belongs_to_one_card(less, end, i, row);
    } else {
        lemma_none_on(less, end, row, cards[n].row as int);
    }
}

proof fn lemma_none_on(cards: Seq<Card>, end: int, row: int, below: int)
    requires
        forall|a: int| 0 <= a < cards.len() ==> (#[trigger] cards[a]).row + cards[a].body < below,
        row >= below,
    ensures
        card_on(cards, row) is None,
    decreases cards.len(),
{
    if cards.len() > 0 {
        let less = cards.drop_last();
        assert forall|a: int| 0 <= a < less.len() implies (#[trigger] less[a]).row + less[a].body
            < below by {
            assert(less[a] == cards[a]);
        }
        lemma_none_on(less, end, row, below);
        assert(cards.last() == cards[cards.len() - 1]);
    }
}

/// The newest card with a call answering to `id`, and which of its calls that is.
pub open spec fn call_among(cards: Seq<Card>, id: Seq<char>) -> Option<(int, int)>
    decreases cards.len(),
{
    if cards.len() == 0 {
        None
    } else {
        match leg_among(cards.last().legs@, id) {
            Some(k) => Some((cards.len() - 1, k)),
            None => call_among(cards.drop_last(), id),
        }
    }
}

/// The newest card with a call answering to `id`, and which of its calls that is.
pub fn find_call(cards: &Vec<Card>, id: &str) -> (r: Option<(usize, usize)>)
    ensures
        match r {
            Some((i, k)) => call_among(cards@, id@) == Some((i as int, k as int)) && i
                < cards@.len() && k < cards@[i as int].legs@.len(),
            None => call_among(cards@, id@) is None,
        },
{
    let mut i: usize = cards.len();
    assert(cards@.take(i as int) =~= cards@);
    while i > 0
        invariant
            i <= cards@.len(),
            call_among(cards@, id@) == call_among(cards@.take(i as int), id@),
        decreases i,
    {
        assert(cards@.take(i as int).drop_last() =~= cards@.take(i - 1));
        assert(cards@.take(i as int).last() == cards@[i - 1]);
        if let Some(k) = cards[i - 1].leg_of(id) {
            return Some((i - 1, k));
        }
        i = i - 1;
    }
    None
}

} // verus!
