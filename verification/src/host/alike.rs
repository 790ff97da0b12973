//! A call looks the same live and replayed.

use crate::host::cards::{all_back, call_among, leg_among, Leg, ToolResult};
use crate::host::chat::{closed, end_of, sound, ChatState};
use crate::host::colours::{lemma_above_stay, lemma_carried_concat, lemma_within_go};
use crate::host::laws::lemma_rows_marks_concat;
use crate::host::screen::{
    all_carried, carried, marks_on_rows, replaced_rows, row_marks, row_texts, rows_marks, rows_of,
    Line, Mark, Row, Shown,
};
use crate::host::toolcards::{call_finished, card_begun, card_redrawn, joins, open_run};
use crate::host::transcript::{appended, body_of, holds_after, is_quiet, shown_after, Block};
use vstd::prelude::*;

verus! {

/// The marks of one row.
proof fn lemma_one_row(at: int, line: Line)
    ensures
        rows_marks(at, seq![line]) == row_marks(at as usize, line),
{
    reveal_with_fuel(rows_marks, 2);
    let one = seq![line];
    assert(one.drop_last() =~= seq![]);
    assert(rows_marks(at, one) =~= row_marks(at as usize, line));
}

/// Where every mark of a row is.
proof fn lemma_row_marks_at(row: usize, line: Line, i: int)
    requires
        0 <= i < row_marks(row, line).len(),
    ensures
        row_marks(row, line)[i].row == row,
{
}

/// A card of its own at the end: drawing its header and then header and body in its place comes to
/// drawing the header and then the body under it.
proof fn lemma_own_card(s: Shown, first: Line, header: Line, body: Seq<Line>)
    requires
        marks_on_rows(s.marks, s.lines.len() as int),
        s.lines.len() + body.len() + 1 <= usize::MAX,
    ensures
        ({
            let e = s.lines.len() as int;
            let live = replaced_rows(
                replaced_rows(s, e, e, seq![first]),
                e,
                e + 1,
                seq![header] + body,
            );
            let again = replaced_rows(
                replaced_rows(s, e, e, seq![header]),
                e + 1,
                e + 1,
                body,
            );
            live == again
        }),
{
    let e = s.lines.len() as int;
    let n = body.len() as int;
    let a = replaced_rows(s, e, e, seq![first]);
    let p = replaced_rows(s, e, e, seq![header]);
    let live = replaced_rows(a, e, e + 1, seq![header] + body);
    let again = replaced_rows(p, e + 1, e + 1, body);
    lemma_above_stay(s.marks, e, e, 1);
    lemma_one_row(e, first);
    lemma_one_row(e, header);
    let fm = row_marks(e as usize, first);
    let hm = row_marks(e as usize, header);
    // Live: what the first header coloured goes with its row.
    lemma_carried_concat(s.marks, fm, e, e + 1, n + 1);
    lemma_above_stay(s.marks, e, e + 1, n + 1);
    assert forall|i: int| 0 <= i < fm.len() implies e <= (#[trigger] fm[i]).row < e + 1 by {
        lemma_row_marks_at(e as usize, first, i);
    }
    lemma_within_go(fm, e, e + 1, n + 1);
    // Again: nothing stands below the header.
    lemma_carried_concat(s.marks, hm, e + 1, e + 1, n);
    assert(marks_on_rows(s.marks, e + 1));
    lemma_above_stay(s.marks, e + 1, e + 1, n);
    assert forall|i: int| 0 <= i < hm.len() implies (#[trigger] hm[i]).row < e + 1 by {
        lemma_row_marks_at(e as usize, header, i);
    }
    lemma_above_stay(hm, e + 1, e + 1, n);
    lemma_rows_marks_concat(e, seq![header], body);
    assert(row_texts(seq![header] + body) =~= seq![header.text] + row_texts(body));
    assert(row_texts(seq![header]) =~= seq![header.text]);
    assert(row_texts(seq![first]) =~= seq![first.text]);
    assert(a.lines =~= s.lines.push(first.text));
    assert(p.lines =~= s.lines.push(header.text));
    assert(live.lines =~= again.lines);
    assert(live.marks =~= again.marks);
}

/// A row that is drawn again leaves no mark of its own, and every other mark where it was.
proof fn lemma_row_cleared(marks: Seq<Mark>, r: int, e: int)
    requires
        0 <= r < e <= usize::MAX,
        marks_on_rows(marks, e),
    ensures
        forall|i: int|
            0 <= i < all_carried(marks, r, r + 1, 1).len() ==> {
                let m = #[trigger] all_carried(marks, r, r + 1, 1)[i];
                m.row != r && m.row < e
            },
    decreases marks.len(),
{
    if marks.len() > 0 {
        let less = marks.drop_last();
        assert forall|i: int| 0 <= i < less.len() implies (#[trigger] less[i]).row < e by {
            assert(less[i] == marks[i]);
        }
        lemma_row_cleared(less, r, e);
        let m = marks.last();
        assert(m == marks[marks.len() - 1]);
        let x = all_carried(marks, r, r + 1, 1);
        let y = all_carried(less, r, r + 1, 1);
        assert forall|i: int| 0 <= i < x.len() implies (#[trigger] x[i]).row != r && x[i].row < e by {
            if i < y.len() {
                assert(x[i] == y[i]);
            } else {
                assert(x[i] == carried(m, r, r + 1, 1)[i - y.len()]);
            }
        }
    }
}

/// Taking a row and what is under it for one row is taking what is under it away, for marks that are
/// not on the row itself.
proof fn lemma_under_row(marks: Seq<Mark>, r: int, e: int)
    requires
        0 <= r < e <= usize::MAX,
        forall|i: int|
            0 <= i < marks.len() ==> (#[trigger] marks[i]).row != r && marks[i].row < e,
    ensures
        all_carried(marks, r, e, 1) == all_carried(marks, r + 1, e, 0),
    decreases marks.len(),
{
    if marks.len() > 0 {
        let less = marks.drop_last();
        assert forall|i: int| 0 <= i < less.len() implies (#[trigger] less[i]).row != r
            && less[i].row < e by {
            assert(less[i] == marks[i]);
        }
        lemma_under_row(less, r, e);
        assert(marks.last() == marks[marks.len() - 1]);
        assert(carried(marks.last(), r, e, 1) =~= carried(marks.last(), r + 1, e, 0));
    }
}

/// A card that is the last thing drawn: drawing its header twice, the second time in place of all its
/// rows, comes to drawing the header and taking what is under it away.
proof fn lemma_joined_card(s: Shown, r: int, first: Line, header: Line)
    requires
        marks_on_rows(s.marks, s.lines.len() as int),
        0 <= r < s.lines.len(),
        s.lines.len() <= usize::MAX,
    ensures
        ({
            let e = s.lines.len() as int;
            let live = replaced_rows(
                replaced_rows(s, r, r + 1, seq![first]),
                r,
                e,
                seq![header],
            );
            let again = replaced_rows(
                replaced_rows(s, r, r + 1, seq![header]),
                r + 1,
                e,
                seq![],
            );
            live == again
        }),
{
    let e = s.lines.len() as int;
    let none: Seq<Line> = seq![];
    let a = replaced_rows(s, r, r + 1, seq![first]);
    let p = replaced_rows(s, r, r + 1, seq![header]);
    let live = replaced_rows(a, r, e, seq![header]);
    let again = replaced_rows(p, r + 1, e, none);
    let x = all_carried(s.marks, r, r + 1, 1);
    let fm = row_marks(r as usize, first);
    let hm = row_marks(r as usize, header);
    lemma_one_row(r, first);
    lemma_one_row(r, header);
    lemma_row_cleared(s.marks, r, e);
    lemma_under_row(x, r, e);
    lemma_carried_concat(x, fm, r, e, 1);
    assert forall|i: int| 0 <= i < fm.len() implies r <= (#[trigger] fm[i]).row < e by {
        lemma_row_marks_at(r as usize, first, i);
    }
    lemma_within_go(fm, r, e, 1);
    lemma_carried_concat(x, hm, r + 1, e, 0);
    assert forall|i: int| 0 <= i < hm.len() implies (#[trigger] hm[i]).row < r + 1 by {
        lemma_row_marks_at(r as usize, header, i);
    }
    lemma_above_stay(hm, r + 1, e, 0);
    assert(rows_marks(r + 1, none) =~= seq![]);
    assert(row_texts(seq![header]) =~= seq![header.text]);
    assert(row_texts(none) =~= seq![]);
    assert(a.lines.len() == e && p.lines.len() == e);
    assert(live.lines =~= again.lines);
    assert(live.marks =~= again.marks);
}

/// A call looks the same live and replayed. Live, its card is drawn with the header it has while it
/// runs, it comes back, and the card is drawn again with the header it has then and its body.
/// Replayed, the call is drawn with that header and its result under it. The rows are the same, and so
/// are their colours, but for the band that says a card has just landed. The card stands on the same
/// row, with as many rows under it.
///
/// `a`, `b` and `c` are the transcript after the call is drawn, after it is back and after its card is
/// drawn again; `p` and `q` are the transcript after the call is replayed and after its result is. A
/// run shows no answers, live or replayed.
pub proof fn a_call_looks_the_same_live_and_replayed(
    s: ChatState,
    leg: Leg,
    stored: Leg,
    grouped: bool,
    first: Line,
    header: Row,
    result: ToolResult,
    body: Vec<Row>,
    clock: u64,
    exit: Option<i64>,
    a: ChatState,
    b: ChatState,
    c: ChatState,
    p: ChatState,
    q: ChatState,
    id: String,
    bar: Seq<char>,
)
    requires
        sound(s),
        is_quiet(s),
        s.shown.lines.len() + body@.len() + 1 <= usize::MAX,
        leg.result is None,
        stored.result is None,
        leg.id@ == id@,
        stored.id@ == id@,
        card_begun(s, leg, grouped, first, a),
        b == (ChatState { cards: b.cards, ..a }),
        call_finished(
            a.cards,
            a.cards.len() - 1,
            a.cards.last().legs@.len() - 1,
            result,
            clock,
            exit,
            b.cards,
        ),
        c == card_redrawn(
            b,
            b.cards.len() - 1,
            header@,
            body_of(b.cards.last(), rows_of(body@)),
        ),
        is_quiet(p),
        p.shown == shown_after(s, bar, Block::Call(stored, grouped, header), seq![], false, true),
        holds_after(s, Block::Call(stored, grouped, header), true, p.cards),
        is_quiet(q),
        q.shown == shown_after(p, bar, Block::Result(id, result, body), seq![], false, true),
        holds_after(p, Block::Result(id, result, body), true, q.cards),
    ensures
        call_among(a.cards, id@) == Some((a.cards.len() - 1, a.cards.last().legs@.len() - 1)),
        c.shown.lines == q.shown.lines,
        c.shown.marks == q.shown.marks + (if all_back(b.cards.last().legs@)
            && !b.cards.last().flashed {
            seq![Mark { row: c.cards.last().row, span: None, hl: "Agent.ToolLanded" }]
        } else {
            seq![]
        }),
        c.cards.len() == q.cards.len(),
        c.cards.last().row == q.cards.last().row,
        c.cards.last().body == q.cards.last().body,
{
    let e = s.shown.lines.len() as int;
    let i = a.cards.len() - 1;
    let under = body_of(b.cards.last(), rows_of(body@));
    let card = a.cards.last();
    assert(end_of(s) == e);
    assert(closed(s) == s);
    assert(leg_among(card.legs@, id@) == Some(card.legs@.len() - 1));
    let own = p.cards.last();
    assert(own.legs@.last() == stored);
    assert(leg_among(own.legs@, id@) == Some(own.legs@.len() - 1));
    assert(call_among(p.cards, id@) == Some((p.cards.len() - 1, own.legs@.len() - 1)));
    assert(b.cards[i] == b.cards.last() && a.cards[i] == card);
    assert(b.cards.last().legs@.len() == card.legs@.len());
    assert(own.legs@.len() == card.legs@.len());
    assert(closed(b) == b);
    if joins(s, grouped) {
        let last = s.cards.last();
        assert(open_run(s));
        assert(last == s.cards[s.cards.len() - 1]);
        assert(under =~= seq![]);
        assert(seq![header@] + under =~= seq![header@]);
        lemma_joined_card(s.shown, last.row as int, first, header@);
    } else {
        lemma_own_card(s.shown, first, header@, rows_of(body@));
        assert(appended(s, seq![header@]).shown == replaced_rows(s.shown, e, e, seq![header@]));
    }
    let drawn = replaced_rows(
        b.shown,
        card.row as int,
        card.row + 1 + card.body,
        seq![header@] + under,
    );
    assert(drawn == q.shown);
    assert(c.shown.lines == q.shown.lines);
    assert(c.shown.marks =~= q.shown.marks + (if all_back(b.cards.last().legs@)
        && !b.cards.last().flashed {
        seq![Mark { row: c.cards.last().row, span: None, hl: "Agent.ToolLanded" }]
    } else {
        seq![]
    }));
}

} // verus!
