//! What the cards of tool calls show, and what is drawn again of an answer.

use crate::host::cards::{
    all_back, all_lowered, call_among, card_on, leg_among, Card, Leg, ToolResult, ToolState,
};
use crate::host::chat::{closed, end_of, ChatState};
use crate::host::looking::{drawn_again, has_card, is_call, live_cards, out_at, task_line, Again};
use crate::host::rounds::{Said, Task, TaskStatus};
use crate::host::screen::{Line, Mark};
use crate::host::streaming::run_into;
use crate::host::toolcards::{call_finished, card_begun, card_redrawn, joins};
use crate::letters::{pieces_put_together_are_the_text, together};
use crate::text::split_on;
use vstd::prelude::*;

verus! {

/// A call of a card is found by its name, the last of it, and not found only where there is none.
pub proof fn a_call_is_found_by_its_name(legs: Seq<Leg>, id: Seq<char>)
    ensures
        match leg_among(legs, id) {
            Some(k) => {
                &&& 0 <= k < legs.len()
                &&& legs[k].id@ == id
                &&& forall|j: int| k < j < legs.len() ==> (#[trigger] legs[j]).id@ != id
            },
            None => forall|j: int| 0 <= j < legs.len() ==> (#[trigger] legs[j]).id@ != id,
        },
    decreases legs.len(),
{
    if legs.len() > 0 && legs.last().id@ != id {
        let front = legs.drop_last();
        a_call_is_found_by_its_name(front, id);
        let from = match leg_among(front, id) {
            Some(k) => k,
            None => -1,
        };
        assert forall|j: int| from < j < legs.len() implies (#[trigger] legs[j]).id@ != id by {
            if j < front.len() {
                assert(front[j] == legs[j]);
            }
        }
    }
}

/// Whether a card has a call of that name.
pub open spec fn has_call(c: Card, id: Seq<char>) -> bool {
    exists|k: int| 0 <= k < c.legs@.len() && (#[trigger] c.legs@[k]).id@ == id
}

/// A call is found on the last card that has it, and not found only where no card has.
pub proof fn a_call_is_found_on_its_card(cards: Seq<Card>, id: Seq<char>)
    ensures
        match call_among(cards, id) {
            Some((i, k)) => {
                &&& 0 <= i < cards.len()
                &&& 0 <= k < cards[i].legs@.len()
                &&& cards[i].legs@[k].id@ == id
                &&& forall|j: int| i < j < cards.len() ==> !has_call(#[trigger] cards[j], id)
            },
            None => forall|j: int| 0 <= j < cards.len() ==> !has_call(#[trigger] cards[j], id),
        },
    decreases cards.len(),
{
    if cards.len() > 0 {
        let n = cards.len() - 1;
        let front = cards.drop_last();
        a_call_is_found_by_its_name(cards[n].legs@, id);
        a_call_is_found_on_its_card(front, id);
        if leg_among(cards[n].legs@, id) is None {
            assert(!has_call(cards[n], id));
            let from = match call_among(front, id) {
                Some((i, k)) => i,
                None => -1,
            };
            if let Some((i, k)) = call_among(front, id) {
                assert(front[i] == cards[i]);
            }
            assert forall|j: int| from < j < cards.len() implies !has_call(
                #[trigger] cards[j],
                id,
            ) by {
                if j < n {
                    assert(front[j] == cards[j]);
                }
            }
        }
    }
}

/// The card under a row is one that the row is on, its header or its body, and there is none only
/// where the row is on none.
pub proof fn the_card_under_a_row_is_the_one_it_is_on(cards: Seq<Card>, row: int)
    ensures
        match card_on(cards, row) {
            Some(i) => 0 <= i < cards.len() && cards[i].row <= row <= cards[i].row + cards[i].body,
            None => forall|i: int|
                0 <= i < cards.len() ==> row < (#[trigger] cards[i]).row || row > cards[i].row
                    + cards[i].body,
        },
    decreases cards.len(),
{
    if cards.len() > 0 {
        let front = cards.drop_last();
        the_card_under_a_row_is_the_one_it_is_on(front, row);
        match card_on(front, row) {
            Some(i) => {
                assert(front[i] == cards[i]);
            },
            None => {
                assert forall|i: int| 0 <= i < front.len() implies row < (#[trigger] cards[i]).row
                    || row > cards[i].row + cards[i].body by {
                    assert(front[i] == cards[i]);
                }
            },
        }
    }
}

/// A call runs until it comes back, and then it is done, or it failed where it came back with an
/// error. What it has taken is what it took, once that is known, and until then what has passed since
/// it started.
pub proof fn a_call_stands_as_it_came(leg: Leg, now: u64)
    ensures
        (leg.stands() == ToolState::Running) == (leg.result is None),
        (leg.stands() == ToolState::Failed) == (leg.result is Some && leg.result->0.is_error),
        (leg.stands() == ToolState::Done) == (leg.result is Some && !leg.result->0.is_error),
        leg.took is Some ==> leg.so_far(now) == leg.took,
        leg.took is None && leg.started is None ==> leg.so_far(now) is None,
        leg.took is None && leg.started is Some && now >= leg.started->0 ==> leg.so_far(now) is Some
            && leg.started->0 + leg.so_far(now)->0 == now,
        leg.took is None && leg.started is Some && now < leg.started->0 ==> leg.so_far(now) == Some(
            0u64,
        ),
{
}

/// The cards below where rows are put go down by as many, and those above stay.
pub proof fn cards_below_go_down(cards: Seq<Card>, at: int, n: int, i: int)
    requires
        0 <= i < cards.len(),
        0 <= n,
        cards[i].row + n <= usize::MAX,
    ensures
        all_lowered(cards, at, n).len() == cards.len(),
        cards[i].row < at ==> all_lowered(cards, at, n)[i] == cards[i],
        cards[i].row >= at ==> all_lowered(cards, at, n)[i].row == cards[i].row + n,
        all_lowered(cards, at, n)[i].legs == cards[i].legs,
        all_lowered(cards, at, n)[i].body == cards[i].body,
        all_lowered(cards, at, n)[i].expanded == cards[i].expanded,
        all_lowered(cards, at, n)[i].flashed == cards[i].flashed,
{
}

/// A call that begins is the last of the last card: of one that is there already only where that one
/// ends the transcript, has not been opened, and takes calls like it; and otherwise of a card of its
/// own, which has nothing under its header yet.
pub proof fn a_call_that_begins_is_on_the_last_card(
    s: ChatState,
    leg: Leg,
    grouped: bool,
    header: Line,
    now: ChatState,
)
    requires
        card_begun(s, leg, grouped, header, now),
    ensures
        now.cards.len() > 0,
        now.cards.last().legs@.len() > 0,
        now.cards.last().legs@.last() == leg,
        !grouped ==> now.cards.last().legs@.len() == 1,
        s.cards.len() == 0 ==> now.cards.last().legs@.len() == 1,
        now.cards.last().legs@.len() > 1 ==> {
            let last = s.cards.last();
            &&& grouped
            &&& last.row + last.body + 1 == end_of(s)
            &&& !last.expanded
            &&& last.legs@.is_prefix_of(now.cards.last().legs@)
        },
        now.cards.last().legs@.len() == 1 ==> now.cards.last().body == 0
            && !now.cards.last().expanded && now.cards.len() == closed(s).cards.len() + 1,
{
    if joins(s, grouped) {
        let last = s.cards.last();
        assert(last.legs@.push(leg).subrange(0, last.legs@.len() as int) =~= last.legs@);
    }
}

/// What a call came back with is on its own leg of its own card, with what it exited with only where
/// it failed and how long it took where it was seen to start; nothing else of any card changes.
pub proof fn what_a_call_came_back_with_is_on_its_leg(
    was: Seq<Card>,
    i: int,
    k: int,
    result: ToolResult,
    clock: u64,
    exit: Option<i64>,
    is: Seq<Card>,
)
    requires
        0 <= i < was.len(),
        0 <= k < was[i].legs@.len(),
        call_finished(was, i, k, result, clock, exit, is),
    ensures
        ({
            let leg = is[i].legs@[k];
            let before = was[i].legs@[k];
            &&& leg.result == Some(result)
            &&& leg.id == before.id && leg.name == before.name && leg.input == before.input
            &&& result.is_error ==> leg.exit == exit
            &&& !result.is_error ==> leg.exit is None
            &&& before.started is None ==> leg.took is None
            &&& before.started is Some && clock >= before.started->0 ==> leg.took is Some
                && before.started->0 + leg.took->0 == clock
        }),
        forall|j: int|
            0 <= j < was[i].legs@.len() && j != k ==> #[trigger] is[i].legs@[j] == was[i].legs@[j],
        forall|j: int| 0 <= j < was.len() && j != i ==> #[trigger] is[j] == was[j],
        is[i].row == was[i].row && is[i].body == was[i].body && is[i].expanded == was[i].expanded,
{
}

/// A card that is drawn again has its header on its row and its body under it, and lights up once:
/// when the last of its calls is back, and not after.
pub proof fn a_card_is_drawn_where_it_stands(
    s: ChatState,
    i: int,
    header: Line,
    body: Seq<Line>,
    j: int,
)
    requires
        s.answer is None,
        0 <= i < s.cards.len(),
        s.cards[i].row + s.cards[i].body < s.shown.lines.len(),
        body.len() <= usize::MAX,
        0 <= j < body.len(),
    ensures
        ({
            let t = card_redrawn(s, i, header, body);
            let c = s.cards[i];
            let lands = all_back(c.legs@) && !c.flashed;
            &&& t.shown.lines[c.row as int] == header.text
            &&& t.shown.lines[c.row + 1 + j] == body[j].text
            &&& t.shown.lines.len() == s.shown.lines.len() - c.body + body.len()
            &&& t.cards[i].body == body.len()
            &&& t.cards[i].row == c.row && t.cards[i].legs == c.legs
            &&& t.cards[i].flashed == (c.flashed || all_back(c.legs@))
            &&& lands ==> t.shown.marks.last() == (Mark {
                row: c.row,
                span: None,
                hl: "Agent.ToolLanded",
            })
        }),
{
}

/// What streams in is behind what was there, with nothing lost and nothing put between.
pub proof fn what_streams_in_is_behind_what_was_there(lines: Seq<Seq<char>>, text: Seq<char>)
    ensures
        lines.len() == 0 ==> together(run_into(lines, text), '\n') == text,
        lines.len() > 0 ==> together(run_into(lines, text), '\n') == together(lines, '\n') + text,
        forall|i: int|
            0 <= i < lines.len() - 1 ==> #[trigger] run_into(lines, text)[i] == lines[i],
{
    pieces_put_together_are_the_text(text, '\n');
    let pieces = split_on(text, '\n');
    if lines.len() > 0 {
        lemma_run_into(lines, pieces);
    }
}

proof fn lemma_run_into(lines: Seq<Seq<char>>, pieces: Seq<Seq<char>>)
    requires
        lines.len() > 0,
        pieces.len() > 0,
    ensures
        together(lines.drop_last().push(lines.last() + pieces[0]) + pieces.skip(1), '\n')
            == together(lines, '\n') + together(pieces, '\n'),
    decreases lines.len(),
{
    let v = lines.drop_last().push(lines.last() + pieces[0]) + pieces.skip(1);
    if lines.len() == 1 {
        assert(v =~= seq![lines[0] + pieces[0]] + pieces.skip(1));
        assert(v.skip(1) =~= pieces.skip(1));
        assert(together(lines, '\n') == lines[0]);
        if pieces.len() == 1 {
            assert(together(v, '\n') =~= lines[0] + pieces[0]);
        } else {
            assert(together(v, '\n') =~= together(lines, '\n') + together(pieces, '\n'));
        }
    } else {
        let rest = lines.skip(1);
        lemma_run_into(rest, pieces);
        let w = rest.drop_last().push(rest.last() + pieces[0]) + pieces.skip(1);
        assert(v.skip(1) =~= w);
        assert(v[0] == lines[0]);
        assert(v.len() > 1);
        assert(together(v, '\n') =~= together(lines, '\n') + together(pieces, '\n'));
    }
}

/// A task that is out has a line, with how long it has been out and whether it still runs; one that
/// is over has none.
pub proof fn every_task_that_is_out_has_a_line(v: Seq<Task>, now: Option<u64>, i: int)
    requires
        0 <= i < v.len(),
    ensures
        v[i].status == TaskStatus::Running || v[i].status == TaskStatus::Backgrounded ==> out_at(
            v,
            now,
        ).contains(task_line(v[i], now)),
        ({
            let l = task_line(v[i], now);
            &&& l.title == v[i].title@
            &&& l.live == (now is Some && v[i].status == TaskStatus::Running)
            &&& now is None ==> l.since is None
            &&& now is Some && now->0 >= v[i].since ==> l.since is Some && v[i].since + l.since->0
                == now->0
        }),
        (forall|j: int|
            0 <= j < v.len() ==> (#[trigger] v[j]).status == TaskStatus::Completed || v[j].status
                == TaskStatus::Failed) ==> out_at(v, now).len() == 0,
    decreases v.len(),
{
    let front = v.drop_last();
    let before = out_at(front, now);
    let all = out_at(v, now);
    let n = v.len() - 1;
    let over = forall|j: int|
        0 <= j < v.len() ==> (#[trigger] v[j]).status == TaskStatus::Completed || v[j].status
            == TaskStatus::Failed;
    if i < n {
        assert(front[i] == v[i]);
        every_task_that_is_out_has_a_line(front, now, i);
        let x = task_line(v[i], now);
        if before.contains(x) {
            let k = choose|k: int| 0 <= k < before.len() && before[k] == x;
            assert(all[k] == x);
        }
    } else {
        if all.len() > before.len() {
            assert(all[before.len() as int] == task_line(v[n], now));
        }
    }
    if over {
        lemma_none_out(v, now);
    }
}

proof fn lemma_none_out(v: Seq<Task>, now: Option<u64>)
    requires
        forall|j: int|
            0 <= j < v.len() ==> (#[trigger] v[j]).status == TaskStatus::Completed || v[j].status
                == TaskStatus::Failed,
    ensures
        out_at(v, now).len() == 0,
    decreases v.len(),
{
    if v.len() > 0 {
        let front = v.drop_last();
        assert forall|j: int| 0 <= j < front.len() implies (#[trigger] front[j]).status
            == TaskStatus::Completed || front[j].status == TaskStatus::Failed by {
            assert(front[j] == v[j]);
        }
        lemma_none_out(front, now);
        assert(v[v.len() - 1] == v.last());
    }
}

/// The cards that count seconds are those with a call that was seen to start and is not back.
pub proof fn every_card_that_runs_counts_seconds(v: Seq<Card>)
    ensures
        forall|i: int| #[trigger]
            live_cards(v).contains(i) == (0 <= i < v.len() && exists|k: int|
                0 <= k < v[i].legs@.len() && (#[trigger] v[i].legs@[k]).result is None
                    && v[i].legs@[k].started is Some),
    decreases v.len(),
{
    if v.len() > 0 {
        let front = v.drop_last();
        let n = v.len() - 1;
        let rest = live_cards(front);
        let all = live_cards(v);
        every_card_that_runs_counts_seconds(front);
        assert forall|i: int| #[trigger]
            all.contains(i) == (0 <= i < v.len() && exists|k: int|
                0 <= k < v[i].legs@.len() && (#[trigger] v[i].legs@[k]).result is None
                    && v[i].legs@[k].started is Some) by {
            if all.contains(i) {
                let k = choose|k: int| 0 <= k < all.len() && all[k] == i;
                if k < rest.len() {
                    assert(rest[k] == i);
                    assert(rest.contains(i));
                    assert(front[i] == v[i]);
                }
            }
            if rest.contains(i) {
                let k = choose|k: int| 0 <= k < rest.len() && rest[k] == i;
                assert(all[k] == i);
            }
            if 0 <= i < n {
                assert(front[i] == v[i]);
            }
            if i == n && all.len() > rest.len() {
                assert(all[rest.len() as int] == n);
            }
        }
    }
}

/// Nothing that was said is left out when it is drawn again: every piece of an answer that says
/// something, a card for every call that has none yet, and every result.
pub proof fn nothing_that_was_said_is_left_out(said: Seq<Said>, drawn: Seq<Seq<char>>, i: int)
    requires
        said.len() <= usize::MAX,
        0 <= i < said.len(),
    ensures
        match said[i] {
            Said::Text(t) => drawn_again(said, drawn).contains(Again::Answer(i as usize)) == (t@.len()
                > 0),
            Said::Tool(c, result) => {
                &&& result is Some ==> drawn_again(said, drawn).contains(Again::Result(i as usize))
                &&& (!drawn.contains(c.id@) && forall|k: int|
                    0 <= k < i ==> !is_call(#[trigger] said[k], c.id@)) ==> drawn_again(
                    said,
                    drawn,
                ).contains(Again::Card(i as usize))
            },
        },
        forall|k: int|
            0 <= k < drawn_again(said, drawn).len() ==> place_of(
                #[trigger] drawn_again(said, drawn)[k],
            ) < said.len(),
    decreases said.len(),
{
    let all = drawn_again(said, drawn);
    let n = said.len() - 1;
    let front = said.drop_last();
    let before = drawn_again(front, drawn);
    let here = all.skip(before.len() as int);
    assert(all =~= before + here);
    if front.len() > 0 {
        nothing_that_was_said_is_left_out(
            front,
            drawn,
            if i < n {
                i
            } else {
                0
            },
        );
    }
    assert forall|k: int| 0 <= k < all.len() implies place_of(#[trigger] all[k]) < said.len() by {
        if k < before.len() {
            assert(all[k] == before[k]);
        } else {
            assert(all[k] == here[k - before.len()]);
        }
    }
    if i < n {
        assert(front[i] == said[i]);
        assert forall|x: Again| before.contains(x) implies #[trigger] all.contains(x) by {
            let k = choose|k: int| 0 <= k < before.len() && before[k] == x;
            assert(all[k] == x);
        }
        match said[i] {
            Said::Text(t) => {
                let x = Again::Answer(i as usize);
                if all.contains(x) {
                    let k = choose|k: int| 0 <= k < all.len() && all[k] == x;
                    if k < before.len() {
                        assert(before[k] == x);
                    } else {
                        assert(here[k - before.len()] == x);
                    }
                }
                if before.contains(x) {
                    assert(all.contains(x));
                }
            },
            Said::Tool(c, result) => {
                if result is Some {
                    assert(all.contains(Again::Result(i as usize)));
                }
                if !drawn.contains(c.id@) && forall|k: int|
                    0 <= k < i ==> !is_call(#[trigger] said[k], c.id@) {
                    assert forall|k: int| 0 <= k < i implies !is_call(#[trigger] front[k], c.id@) by {
                        assert(front[k] == said[k]);
                    }
                    assert(all.contains(Again::Card(i as usize)));
                }
            },
        }
    } else {
        match said[n] {
            Said::Text(t) => {
                let x = Again::Answer(n as usize);
                if t@.len() > 0 {
                    assert(all[before.len() as int] == x);
                } else if all.contains(x) {
                    let k = choose|k: int| 0 <= k < all.len() && all[k] == x;
                    assert(before[k] == x);
                    assert(place_of(before[k]) < front.len());
                }
            },
            Said::Tool(c, result) => {
                if result is Some {
                    assert(all[all.len() - 1] == Again::Result(n as usize));
                }
                if !drawn.contains(c.id@) && forall|k: int|
                    0 <= k < n ==> !is_call(#[trigger] said[k], c.id@) {
                    assert forall|k: int| 0 <= k < front.len() implies !is_call(
                        #[trigger] front[k],
                        c.id@,
                    ) by {
                        assert(front[k] == said[k]);
                    }
                    assert(!has_card(drawn, front, c.id@));
                    assert(all[before.len() as int] == Again::Card(n as usize));
                }
            },
        }
    }
}

/// Which thing that was said something is drawn for.
pub open spec fn place_of(a: Again) -> int {
    match a {
        Again::Answer(i) => i as int,
        Again::Card(i) => i as int,
        Again::Result(i) => i as int,
    }
}

} // verus!
