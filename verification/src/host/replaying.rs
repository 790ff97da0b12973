//! What of a conversation is drawn when it is opened again.

use crate::host::cards::Card;
use crate::host::chat::ChatState;
use crate::host::history::{begins_turn, called_before, Told};
use crate::host::questions::barred;
use crate::host::screen::{bare_line, Line};
use crate::host::transcript::{
    all_drawn, appended, asked, body_of, gap_added, is_drawn, is_quiet, shown_after, summarised,
    turn_begun, typed_lines, Asked, Block,
};
use crate::text::is_blank;
use crate::words::lines_of;
use vstd::prelude::*;

verus! {

/// What is drawn: everything but what is hidden, and calls and what they came back with only where
/// they are shown. What failed always is.
pub proof fn what_failed_is_always_drawn(b: Block, show_tools: bool)
    ensures
        b is Hidden ==> !is_drawn(b, show_tools),
        b is Question || b is Answer || b is Image ==> is_drawn(b, show_tools),
        b is Call ==> is_drawn(b, show_tools) == show_tools,
        b is Result ==> is_drawn(b, show_tools) == (show_tools || b->Result_1.is_error),
{
}

/// What is put at the end is at the end, and everything before it stays.
pub proof fn what_is_put_at_the_end_is_at_the_end(s: ChatState, rows: Seq<Line>, i: int)
    requires
        is_quiet(s),
    ensures
        ({
            let t = appended(s, rows);
            let n = s.shown.lines.len() as int;
            &&& t.shown.lines.len() == n + rows.len()
            &&& 0 <= i < n ==> t.shown.lines[i] == s.shown.lines[i]
            &&& 0 <= i < rows.len() ==> t.shown.lines[n + i] == rows[i].text
            &&& is_quiet(t) && t.cards == s.cards
        }),
{
}

/// A gap is one empty row, and only where what is above it is not empty already.
pub proof fn a_gap_is_one_empty_row(s: ChatState)
    requires
        is_quiet(s),
    ensures
        ({
            let n = s.shown.lines.len() as int;
            let t = gap_added(s);
            let against = n > 0 && !is_blank(s.shown.lines[n - 1]);
            &&& is_quiet(t) && t.cards == s.cards
            &&& !against ==> t == s
            &&& against ==> t.shown.lines == s.shown.lines.push(seq![])
            &&& s.shown.lines.is_prefix_of(t.shown.lines)
        }),
{
    let t = gap_added(s);
    let n = s.shown.lines.len() as int;
    if n > 0 && !is_blank(s.shown.lines[n - 1]) {
        assert(t.shown.lines =~= s.shown.lines.push(seq![]));
    }
    assert(t.shown.lines.subrange(0, n) =~= s.shown.lines);
}

proof fn lemma_appended(s: ChatState, rows: Seq<Line>)
    requires
        is_quiet(s),
    ensures
        appended(s, rows).shown.lines == s.shown.lines + rows.map_values(|r: Line| r.text),
        is_quiet(appended(s, rows)),
{
    assert(appended(s, rows).shown.lines =~= s.shown.lines + rows.map_values(|r: Line| r.text));
}

proof fn lemma_turn_begun(s: ChatState, summary: Seq<Line>, after_image: bool)
    requires
        is_quiet(s),
    ensures
        is_quiet(turn_begun(s, summary, after_image)),
        s.shown.lines.is_prefix_of(turn_begun(s, summary, after_image).shown.lines),
        after_image ==> turn_begun(s, summary, after_image) == s,
{
    let t = turn_begun(s, summary, after_image);
    let n = s.shown.lines.len() as int;
    if after_image {
        assert(s.shown.lines.subrange(0, n) =~= s.shown.lines);
    } else {
        let m = summarised(s, summary);
        if summary.len() == 0 {
            a_gap_is_one_empty_row(s);
        } else {
            let g = gap_added(s);
            a_gap_is_one_empty_row(s);
            lemma_appended(g, summary);
            assert(m.shown.lines == g.shown.lines + summary.map_values(|r: Line| r.text));
            a_gap_is_one_empty_row(m);
            assert(t.shown.lines.subrange(0, n) =~= m.shown.lines.subrange(0, n));
            assert(m.shown.lines.subrange(0, n) =~= g.shown.lines.subrange(0, n));
        }
    }
}

/// What was asked is drawn behind what was there, every line of it behind its bar, and an empty row
/// after it; a picture is one row behind a bar.
pub proof fn what_was_asked_is_drawn_whole(
    s: ChatState,
    bar: Seq<char>,
    text: String,
    summary: Seq<Line>,
    after_image: bool,
    show_tools: bool,
)
    requires
        is_quiet(s),
    ensures
        ({
            let t = shown_after(s, bar, Block::Question(text), summary, after_image, show_tools);
            let ls = lines_of(text@);
            let at = t.lines.len() - ls.len() - 1;
            &&& at >= s.shown.lines.len()
            &&& s.shown.lines.is_prefix_of(t.lines)
            &&& forall|i: int|
                0 <= i < ls.len() ==> #[trigger] t.lines[at + i] == bar + " "@ + ls[i]
            &&& t.lines.last().len() == 0
        }),
        ({
            let t = shown_after(s, bar, Block::Image(text), summary, after_image, show_tools);
            &&& s.shown.lines.is_prefix_of(t.lines)
            &&& t.lines.len() > s.shown.lines.len()
            &&& t.lines.last() == bar + " "@ + text@
            &&& after_image ==> t.lines.len() == s.shown.lines.len() + 1
        }),
{
    let b = turn_begun(s, summary, after_image);
    let n = s.shown.lines.len() as int;
    lemma_turn_begun(s, summary, after_image);
    let rows = typed_lines(bar, text@);
    lemma_appended(b, rows);
    let ls = lines_of(text@);
    let t = shown_after(s, bar, Block::Question(text), summary, after_image, show_tools);
    assert(t.lines == b.shown.lines + rows.map_values(|r: Line| r.text));
    let at = b.shown.lines.len() as int;
    assert(rows.len() == ls.len() + 1);
    assert forall|i: int| 0 <= i < ls.len() implies #[trigger] t.lines[at + i] == bar + " "@
        + ls[i] by {
        assert(rows[i] == barred(bar, ls[i]));
    }
    assert(rows.last() == bare_line(seq![]));
    assert(t.lines.subrange(0, n) =~= b.shown.lines.subrange(0, n));
    let one = seq![barred(bar, text@)];
    lemma_appended(b, one);
    let u = shown_after(s, bar, Block::Image(text), summary, after_image, show_tools);
    assert(u.lines == b.shown.lines + one.map_values(|r: Line| r.text));
    assert(u.lines.subrange(0, n) =~= b.shown.lines.subrange(0, n));
}

/// A card of one call shows what it came back with, and a card of several shows none of it.
pub proof fn only_a_card_of_one_call_has_a_body(c: Card, body: Seq<Line>)
    ensures
        c.legs@.len() <= 1 ==> body_of(c, body) == body,
        c.legs@.len() > 1 ==> body_of(c, body).len() == 0,
{
}

/// A turn that the workspace did not live to see the end of is told so, last of all; one that still
/// runs is not, and nothing is summed up of it yet.
pub proof fn a_turn_that_was_cut_off_is_told_so(
    s: ChatState,
    summary: Seq<Line>,
    running: bool,
    interrupted: bool,
    fail: Seq<char>,
)
    requires
        is_quiet(s),
    ensures
        running ==> all_drawn(s, summary, running, interrupted, fail) == s,
        interrupted && !running ==> all_drawn(
            s,
            summary,
            running,
            interrupted,
            fail,
        ).shown.lines.last() == fail + " the workspace stopped while this turn was running"@,
        !running && !interrupted && summary.len() == 0 ==> all_drawn(
            s,
            summary,
            running,
            interrupted,
            fail,
        ) == s,
        !running && !interrupted && summary.len() > 0 ==> all_drawn(
            s,
            summary,
            running,
            interrupted,
            fail,
        ).shown.lines.last() == summary.last().text,
{
    a_gap_is_one_empty_row(s);
    let g = gap_added(s);
    lemma_appended(g, summary);
    let over = summarised(s, summary);
    a_gap_is_one_empty_row(over);
}

/// What is asked for, before something is drawn again: a header for a call, a body for what came
/// back, and a summary where a turn begins.
pub proof fn what_is_asked_for_is_what_it_needs(
    s: ChatState,
    history: Seq<Told>,
    n: int,
    grouped: bool,
    show_tools: bool,
)
    requires
        0 <= n < history.len(),
    ensures
        ({
            let a = asked(s, history, n, grouped, show_tools);
            &&& (a is Header) == (history[n] is Call && show_tools)
            &&& (a is Body) == (history[n] is Result && (show_tools
                || history[n]->Result_1.is_error))
            &&& (a is Summary) == begins_turn(history.take(n + 1))
            &&& history[n] is Result && show_tools ==> a == Asked::Body(
                called_before(history.take(n), history[n]->Result_0@),
            )
        }),
{
    assert(history.take(n + 1).last() == history[n]);
}

} // verus!
