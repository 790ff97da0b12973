//! An answer is coloured the same live and replayed.

use crate::host::chat::{
    answered, answering, blank_lines, closed, end_of, opening, patch_marks, patched_rows, sound,
    ChatState,
};
use crate::host::laws::{an_answer_looks_the_same_live_and_replayed, told};
use crate::host::screen::{
    all_carried, bare_line, carried, marks_on_rows, row_texts, rows_marks, Line, Mark, Shown,
};
use crate::host::transcript::{drawn_at_end, gap_added, is_quiet};
use crate::markdown::bounds::{inside, lemma_draw_rows, lemma_stack_inside, marks_lie_on_their_rows};
use crate::markdown::laws::{
    a_stream_ends_up_where_one_shot_does, all_said, blank_screen, streamed,
};
use crate::markdown::lines::lemma_raw_lines;
use crate::markdown::model::{
    draw, draw_text, moved, nothing, patched, repaint_of, repainted, say, settled_part, settling,
    stack, unsaid, unsettled, Drawn, Span, Stream,
};
use crate::markdown::rendered;
use crate::markdown::stacking::{
    lemma_patch_below, lemma_repainted_inside, lemma_settled, lemma_stack_assoc,
    lemma_stack_nothing,
};
use crate::text::raw_lines;
use vstd::prelude::*;

verus! {

// ---- marks that are carried -------------------------------------------------

pub proof fn lemma_carried_concat(a: Seq<Mark>, b: Seq<Mark>, from: int, to: int, n: int)
    ensures
        all_carried(a + b, from, to, n) == all_carried(a, from, to, n) + all_carried(
            b,
            from,
            to,
            n,
        ),
    decreases b.len(),
{
    if b.len() == 0 {
        assert(a + b =~= a);
        assert(all_carried(a, from, to, n) + all_carried(b, from, to, n) =~= all_carried(
            a,
            from,
            to,
            n,
        ));
    } else {
        lemma_carried_concat(a, b.drop_last(), from, to, n);
        assert((a + b).drop_last() =~= a + b.drop_last());
        assert((a + b).last() == b.last());
        assert(all_carried(a + b, from, to, n) =~= all_carried(a, from, to, n) + all_carried(
            b,
            from,
            to,
            n,
        ));
    }
}

/// Marks above the rows that are replaced stay.
pub proof fn lemma_above_stay(marks: Seq<Mark>, from: int, to: int, n: int)
    requires
        marks_on_rows(marks, from),
    ensures
        all_carried(marks, from, to, n) == marks,
    decreases marks.len(),
{
    if marks.len() > 0 {
        let less = marks.drop_last();
        assert forall|i: int| 0 <= i < less.len() implies (#[trigger] less[i]).row < from by {
            assert(less[i] == marks[i]);
        }
        lemma_above_stay(less, from, to, n);
        assert(marks.last() == marks[marks.len() - 1]);
    }
    assert(all_carried(marks, from, to, n) =~= marks);
}

/// Marks on the rows that are replaced go.
pub proof fn lemma_within_go(marks: Seq<Mark>, from: int, to: int, n: int)
    requires
        forall|i: int| 0 <= i < marks.len() ==> from <= (#[trigger] marks[i]).row < to,
    ensures
        all_carried(marks, from, to, n) == Seq::<Mark>::empty(),
    decreases marks.len(),
{
    if marks.len() > 0 {
        let less = marks.drop_last();
        assert forall|i: int| 0 <= i < less.len() implies from <= (#[trigger] less[i]).row < to by {
            assert(less[i] == marks[i]);
        }
        lemma_within_go(less, from, to, n);
        assert(marks.last() == marks[marks.len() - 1]);
    }
    assert(all_carried(marks, from, to, n) =~= seq![]);
}

/// Marks round some rows that were put in at `end` are where they would be had the rows that stand
/// there now been put in to begin with.
proof fn lemma_carried_again(
    marks: Seq<Mark>,
    end: int,
    shift: int,
    at: int,
    n: int,
    total: int,
)
    requires
        0 <= end <= at <= end + shift,
        n >= 0,
        marks_on_rows(marks, total),
        total + shift <= usize::MAX,
        total + (at - end) + n <= usize::MAX,
    ensures
        all_carried(all_carried(marks, end, end, shift), at, end + shift, n) == all_carried(
            marks,
            end,
            end,
            at - end + n,
        ),
    decreases marks.len(),
{
    if marks.len() > 0 {
        let less = marks.drop_last();
        let m = marks.last();
        assert(m == marks[marks.len() - 1]);
        assert forall|i: int| 0 <= i < less.len() implies (#[trigger] less[i]).row < total by {
            assert(less[i] == marks[i]);
        }
        lemma_carried_again(less, end, shift, at, n, total);
        let one = carried(m, end, end, shift);
        lemma_carried_concat(all_carried(less, end, end, shift), one, at, end + shift, n);
        reveal_with_fuel(all_carried, 2);
        assert(one.drop_last() =~= seq![]);
        assert(all_carried(one, at, end + shift, n) =~= carried(m, end, end, at - end + n));
    } else {
        assert(all_carried(all_carried(marks, end, end, shift), at, end + shift, n) =~= seq![]);
    }
}

proof fn lemma_patch_marks_concat(a: Seq<Span>, b: Seq<Span>, at: int)
    ensures
        patch_marks(a + b, at) == patch_marks(a, at) + patch_marks(b, at),
{
    assert(patch_marks(a + b, at) =~= patch_marks(a, at) + patch_marks(b, at));
}

proof fn lemma_patch_marks_moved(a: Seq<Span>, rows: int, at: int)
    ensures
        patch_marks(moved(a, rows, 0), at) == patch_marks(a, at + rows),
{
    assert(patch_marks(moved(a, rows, 0), at) =~= patch_marks(a, at + rows));
}

// ---- one patch --------------------------------------------------------------

/// Where an answer stands on screen: `pre` rows above it and `post` below, of which `end` and `post`
/// were there before it, with these marks.
pub struct Frame {
    pub pre: Seq<Seq<char>>,
    pub post: Seq<Seq<char>>,
    pub marks: Seq<Mark>,
    pub end: int,
}

/// Whether a screen shows a drawing inside a frame, rows and colours.
spec fn frames(f: Frame, s: Shown, d: Drawn) -> bool {
    let p = f.pre.len() as int;
    &&& 0 <= f.end <= p
    &&& marks_on_rows(f.marks, f.end + f.post.len())
    &&& s.lines == f.pre + d.rows + f.post
    &&& s.marks == all_carried(f.marks, f.end, f.end, p - f.end + d.rows.len()) + patch_marks(
        d.marks,
        p,
    )
}

/// Whether all the rows of a frame round so many others can be counted.
spec fn has_room(f: Frame, n: int) -> bool {
    f.pre.len() + n + f.post.len() <= usize::MAX
}

proof fn lemma_patch_framed(f: Frame, s: Shown, done: Drawn, was: Drawn, d: Drawn)
    requires
        frames(f, s, stack(done, was)),
        inside(done),
        inside(was),
        inside(d),
        was.rows == d.rows ==> was.marks == d.marks,
        has_room(f, (done.rows.len() + was.rows.len()) as int),
        has_room(f, (done.rows.len() + d.rows.len()) as int),
    ensures
        frames(
            f,
            patched_rows(
                s,
                f.pre.len() as int + done.rows.len(),
                f.pre.len() as int + done.rows.len() + was.rows.len(),
                d,
            ),
            stack(done, d),
        ),
{
    let p = f.pre.len() as int;
    let k = done.rows.len() as int;
    let at = p + k;
    let to = at + was.rows.len();
    let n = d.rows.len() as int;
    let after = patched_rows(s, at, to, d);
    let all = stack(done, was);
    assert(s.lines.subrange(at, to) =~= was.rows);
    if was.rows == d.rows {
        assert(stack(done, d).rows == all.rows && stack(done, d).marks == all.marks);
    } else {
        assert(after.lines =~= f.pre + stack(done, d).rows + f.post);
        let base = all_carried(f.marks, f.end, f.end, p - f.end + all.rows.len());
        let kept = patch_marks(done.marks, p);
        let gone = patch_marks(moved(was.marks, k, 0), p);
        lemma_patch_marks_concat(done.marks, moved(was.marks, k, 0), p);
        assert(s.marks =~= base + kept + gone);
        lemma_carried_concat(base + kept, gone, at, to, n);
        lemma_carried_concat(base, kept, at, to, n);
        lemma_carried_again(
            f.marks,
            f.end,
            p - f.end + all.rows.len(),
            at,
            n,
            f.end + f.post.len(),
        );
        assert(marks_on_rows(kept, at)) by {
            assert forall|i: int| 0 <= i < kept.len() implies (#[trigger] kept[i]).row < at by {
                assert(0 <= done.marks[i].row < k);
            }
        }
        lemma_above_stay(kept, at, to, n);
        assert forall|i: int| 0 <= i < gone.len() implies at <= (#[trigger] gone[i]).row < to by {
            assert(0 <= was.marks[i].row < was.rows.len());
        }
        lemma_within_go(gone, at, to, n);
        lemma_patch_marks_concat(done.marks, moved(d.marks, k, 0), p);
        lemma_patch_marks_moved(d.marks, k, p);
        assert(after.marks =~= all_carried(
            f.marks,
            f.end,
            f.end,
            p - f.end + stack(done, d).rows.len(),
        ) + patch_marks(stack(done, d).marks, p));
    }
}

// ---- an answer --------------------------------------------------------------

/// Whether the colours follow wherever the rows stay: no piece of an answer leaves every row of what
/// is still open reading as it did and colours it otherwise. Rows that already read right are not
/// drawn again, and their colours with them.
pub open spec fn colours_follow(s: Stream, was: Drawn, pieces: Seq<Seq<char>>) -> bool
    decreases pieces.len(),
{
    if pieces.len() == 0 {
        true
    } else {
        let told = say(s, pieces[0]);
        let d = repainted(told, false);
        let next = repaint_of(told, false);
        &&& was.rows == d.rows ==> was.marks == d.marks
        &&& colours_follow(next, draw_text(unsettled(next), next.fence), pieces.skip(1))
    }
}

/// The blank row that an answer opens with.
pub open spec fn open_row() -> Drawn {
    Drawn { rows: seq![Seq::<char>::empty()], marks: seq![], fence: false }
}

proof fn lemma_text_rows(text: Seq<char>, fence: bool)
    ensures
        draw_text(text, fence).rows.len() <= text.len(),
{
    lemma_raw_lines(text);
    lemma_draw_rows(raw_lines(text), fence);
}

/// What is drawn again takes no more rows than it has characters.
proof fn lemma_repainted_rows(s: Stream)
    requires
        0 <= s.settled <= s.said.len(),
    ensures
        repainted(s, false).rows.len() <= unsettled(s).len(),
        settled_part(s, false).rows.len() <= settling(s, false) <= unsettled(s).len(),
{
    let n = settling(s, false);
    lemma_settled(unsettled(s), s.fence);
    lemma_text_rows(unsettled(s).take(n), s.fence);
    lemma_text_rows(unsettled(s).skip(n), settled_part(s, false).fence);
}

/// Whether an answer is being written in a frame, with what is settled of it above what is open.
spec fn is_written(f: Frame, t: ChatState, done: Drawn, was: Drawn) -> bool {
    let w = t.answer->0;
    &&& t.answer is Some
    &&& w.start == f.pre.len()
    &&& w.rows == done.rows.len() + was.rows.len()
    &&& w.stream.rows == done.rows.len()
    &&& 0 <= w.stream.rows <= w.stream.settled <= w.stream.said.len()
    &&& frames(f, t.shown, stack(done, was))
    &&& inside(done)
    &&& inside(was)
}

proof fn lemma_written_step(
    f: Frame,
    t: ChatState,
    done: Drawn,
    was: Drawn,
    piece: Seq<char>,
)
    requires
        is_written(f, t, done, was),
        was.rows == repainted(say(t.answer->0.stream, piece), false).rows ==> was.marks
            == repainted(say(t.answer->0.stream, piece), false).marks,
        has_room(f, (done.rows.len() + was.rows.len()) as int),
        has_room(f, (t.answer->0.stream.said.len() + piece.len()) as int),
    ensures
        ({
            let told = say(t.answer->0.stream, piece);
            let next = repaint_of(told, false);
            let after = answered(t, piece);
            let open = draw_text(unsettled(next), next.fence);
            &&& is_written(f, after, stack(done, settled_part(told, false)), open)
            &&& after.answer->0.stream == next
            &&& next.said == told.said
        }),
{
    let st = t.answer->0.stream;
    let told = say(st, piece);
    let d = repainted(told, false);
    let part = settled_part(told, false);
    let next = repaint_of(told, false);
    let open = draw_text(unsettled(next), next.fence);
    lemma_repainted_inside(told, false);
    lemma_repainted_rows(told);
    lemma_patch_framed(f, t.shown, done, was, d);
    lemma_settled(unsettled(told), told.fence);
    assert(unsettled(next) =~= unsettled(told).skip(settling(told, false)));
    assert(d == stack(part, open));
    lemma_stack_assoc(done, part, open);
    lemma_stack_inside(done, part);
    marks_lie_on_their_rows(raw_lines(unsettled(next)), next.fence);
}

/// Finishing an answer draws what was open of it again.
proof fn lemma_finished_open(st: Stream)
    ensures
        repainted(st, true) == draw_text(unsettled(st), st.fence),
{
    let rest = unsettled(st);
    assert(rest.take(rest.len() as int) =~= rest);
    assert(rest.skip(rest.len() as int) =~= seq![]);
    let last = settled_part(st, true);
    assert(raw_lines(Seq::<char>::empty()) =~= seq![]);
    assert(draw(seq![], last.fence) == nothing(last.fence));
    lemma_stack_nothing(last, last.fence);
}

/// What is on screen once an answer is over.
proof fn lemma_closed_rows(t: ChatState)
    requires
        t.answer is Some,
    ensures
        closed(t).shown == patched_rows(
            t.shown,
            t.answer->0.start + t.answer->0.stream.rows,
            t.answer->0.start + t.answer->0.rows,
            repainted(t.answer->0.stream, true),
        ),
{
}

/// An answer that is over shows what was open of it as it did.
proof fn lemma_written_over(f: Frame, t: ChatState, over: Shown, done: Drawn, was: Drawn)
    requires
        is_written(f, t, done, was),
        over == patched_rows(
            t.shown,
            t.answer->0.start + t.answer->0.stream.rows,
            t.answer->0.start + t.answer->0.rows,
            was,
        ),
        has_room(f, (done.rows.len() + was.rows.len()) as int),
    ensures
        frames(f, over, stack(done, was)),
{
    lemma_patch_framed(f, t.shown, done, was, was);
}

/// One more piece shows the same whether the rest of the stream is told or its drawing is patched.
proof fn lemma_told_and_streamed(st: Stream, done: Drawn, pieces: Seq<Seq<char>>)
    requires
        pieces.len() > 0,
        0 <= st.settled <= st.said.len(),
        st.rows == done.rows.len(),
        inside(done),
    ensures
        ({
            let said = say(st, pieces[0]);
            let next = repaint_of(said, false);
            streamed(st, stack(done, draw_text(unsettled(st), st.fence)), pieces) == streamed(
                next,
                stack(
                    stack(done, settled_part(said, false)),
                    draw_text(unsettled(next), next.fence),
                ),
                pieces.skip(1),
            )
        }),
{
    let was = draw_text(unsettled(st), st.fence);
    let said = say(st, pieces[0]);
    let d = repainted(said, false);
    let next = repaint_of(said, false);
    let open = draw_text(unsettled(next), next.fence);
    let part = settled_part(said, false);
    marks_lie_on_their_rows(raw_lines(unsettled(st)), st.fence);
    lemma_patch_below(done, was, d);
    lemma_settled(unsettled(said), said.fence);
    assert(unsettled(next) =~= unsettled(said).skip(settling(said, false)));
    assert(d == stack(part, open));
    lemma_stack_assoc(done, part, open);
}

proof fn lemma_written(
    f: Frame,
    t: ChatState,
    done: Drawn,
    pieces: Seq<Seq<char>>,
)
    requires
        is_written(f, t, done, draw_text(unsettled(t.answer->0.stream), t.answer->0.stream.fence)),
        colours_follow(
            t.answer->0.stream,
            draw_text(unsettled(t.answer->0.stream), t.answer->0.stream.fence),
            pieces,
        ),
        has_room(f, (t.answer->0.stream.said.len() + all_said(pieces).len()) as int),
    ensures
        frames(
            f,
            closed(told(t, pieces)).shown,
            streamed(
                t.answer->0.stream,
                stack(done, draw_text(unsettled(t.answer->0.stream), t.answer->0.stream.fence)),
                pieces,
            ),
        ),
    decreases pieces.len(),
{
    let st = t.answer->0.stream;
    let was = draw_text(unsettled(st), st.fence);
    lemma_text_rows(unsettled(st), st.fence);
    if pieces.len() == 0 {
        lemma_finished_open(st);
        lemma_closed_rows(t);
        lemma_written_over(f, t, closed(t).shown, done, was);
        lemma_patch_below(done, was, was);
    } else {
        let piece = pieces[0];
        let more = all_said(pieces.skip(1));
        assert(all_said(pieces) == piece + more);
        let part = settled_part(say(st, piece), false);
        lemma_written_step(f, t, done, was, piece);
        lemma_written(f, answered(t, piece), stack(done, part), pieces.skip(1));
        lemma_told_and_streamed(st, done, pieces);
        assert(told(t, pieces) == told(answered(t, piece), pieces.skip(1)));
    }
}

proof fn lemma_no_marks(at: int, k: nat)
    ensures
        rows_marks(at, blank_lines(k)) == Seq::<Mark>::empty(),
    decreases k,
{
    if k > 0 {
        lemma_no_marks(at, (k - 1) as nat);
        assert(blank_lines(k).drop_last() =~= blank_lines((k - 1) as nat));
        assert(blank_lines(k).last() == bare_line(seq![]));
    }
    assert(rows_marks(at, blank_lines(k)) =~= seq![]);
}

/// An answer is coloured the same however it arrived: once it is over, its marks are those that
/// rendering the whole of it in one go gives, on the rows it takes, beside the marks that were there.
/// Where nothing stood below it, the screen is the one that reading the conversation again draws.
/// Left out are answers with a piece that leaves the rows it comes to as they read and changes only
/// their colours.
pub proof fn an_answer_is_coloured_the_same_live_and_replayed(
    s: ChatState,
    pieces: Seq<Seq<char>>,
)
    requires
        sound(s),
        s.answer is None,
        pieces.len() > 0,
        colours_follow(unsaid(), open_row(), pieces),
        s.shown.lines.len() + all_said(pieces).len() + 2 <= usize::MAX,
    ensures
        ({
            let whole = rendered(all_said(pieces));
            let end = end_of(s);
            let above = opening(s) - 1;
            let shown = closed(told(s, pieces)).shown;
            &&& shown.marks == all_carried(s.shown.marks, end, end, above + whole.rows.len())
                + patch_marks(whole.marks, end + above)
            &&& is_quiet(s) ==> shown == drawn_at_end(gap_added(s), whole).shown
        }),
{
    let o = answering(s);
    let end = end_of(s);
    let k = opening(s);
    let lines = s.shown.lines;
    let pre = lines.take(end) + row_texts(blank_lines((k - 1) as nat));
    let f = Frame { pre, post: lines.skip(end), marks: s.shown.marks, end };
    let empty = open_row();
    let none = nothing(false);
    let text = all_said(pieces);
    let piece = pieces[0];
    let more = all_said(pieces.skip(1));
    assert(text == piece + more);
    assert(row_texts(blank_lines(k)) =~= row_texts(blank_lines((k - 1) as nat)) + empty.rows);
    assert(o.shown.lines =~= pre + empty.rows + f.post);
    lemma_no_marks(end, k);
    assert(o.shown.marks =~= all_carried(s.shown.marks, end, end, k as int) + patch_marks(
        empty.marks,
        pre.len() as int,
    ));
    lemma_stack_nothing(empty, false);
    assert(stack(none, empty) == empty);
    assert(is_written(f, o, none, empty));
    lemma_written_step(f, o, none, empty, piece);
    let said = say(unsaid(), piece);
    let d = repainted(said, false);
    let next = repaint_of(said, false);
    let open = draw_text(unsettled(next), next.fence);
    let part = settled_part(said, false);
    lemma_stack_nothing(part, false);
    assert(answered(o, piece) == answered(s, piece));
    lemma_written(f, answered(s, piece), part, pieces.skip(1));
    // What the stream shows is the same, whether it starts on a blank row or on none.
    lemma_repainted_inside(said, false);
    lemma_patch_below(none, none, d);
    lemma_stack_nothing(none, false);
    lemma_stack_nothing(d, false);
    assert(blank_screen() == none);
    lemma_settled(unsettled(said), said.fence);
    assert(unsettled(next) =~= unsettled(said).skip(settling(said, false)));
    assert(d == stack(part, open));
    assert(patched(blank_screen(), 0, d) == stack(part, open));
    assert(streamed(unsaid(), blank_screen(), pieces) == streamed(
        next,
        stack(part, open),
        pieces.skip(1),
    ));
    a_stream_ends_up_where_one_shot_does(pieces);
    let whole = rendered(text);
    let shown = closed(told(s, pieces)).shown;
    assert(frames(f, shown, whole));
    if is_quiet(s) {
        lemma_replayed(s, pieces, shown, whole);
    }
}

proof fn lemma_replayed(s: ChatState, pieces: Seq<Seq<char>>, shown: Shown, whole: Drawn)
    requires
        sound(s),
        is_quiet(s),
        pieces.len() > 0,
        whole == rendered(all_said(pieces)),
        shown == closed(told(s, pieces)).shown,
        shown.marks == all_carried(
            s.shown.marks,
            end_of(s),
            end_of(s),
            opening(s) - 1 + whole.rows.len(),
        ) + patch_marks(whole.marks, end_of(s) + opening(s) - 1),
    ensures
        shown == drawn_at_end(gap_added(s), whole).shown,
{
    let end = end_of(s);
    let marks = s.shown.marks;
    assert(end == s.shown.lines.len());
    an_answer_looks_the_same_live_and_replayed(s, pieces);
    lemma_above_stay(marks, end, end, opening(s) - 1 + whole.rows.len());
    let g = gap_added(s);
    let one: Seq<Line> = seq![bare_line(seq![])];
    assert(one =~= blank_lines(1));
    lemma_no_marks(end, 1);
    lemma_above_stay(marks, end, end, 1);
    assert(g.shown.marks =~= marks);
    assert(g.shown.lines =~= s.shown.lines + row_texts(blank_lines((opening(s) - 1) as nat)));
    let at = end_of(g);
    assert(marks_on_rows(g.shown.marks, at));
    lemma_above_stay(g.shown.marks, at, at, whole.rows.len() as int);
    let r = drawn_at_end(g, whole);
    assert(s.shown.lines.take(end) =~= s.shown.lines);
    assert(s.shown.lines.skip(end) =~= seq![]);
    assert(r.shown.lines =~= shown.lines);
    assert(r.shown.marks =~= shown.marks);
}

} // verus!
