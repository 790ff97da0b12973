//! What holds of the transcript however it came about.

use crate::host::chat::{
    answered, answering, blank_lines, closed, end_of, is_against, opening, patched_rows, pushed,
    sound, ChatState,
};
use crate::host::questions::{
    all_blank, asked, barred, question_lines, with_gap,
};
use crate::host::screen::{
    all_carried, bare_line, marks_on_rows, row_marks, row_texts, rows_marks, Line, Mark, Shown,
};
use crate::host::transcript::{appended, is_quiet, summarised, turn_begun, typed_lines};
use crate::markdown::laws::{
    a_stream_ends_up_where_one_shot_does, all_said, blank_screen, streamed,
};
use crate::markdown::model::{
    patched, repaint_of, repainted, say, settled_part, unsaid, Drawn, Span,
};
use crate::markdown::rendered;
use crate::text::is_blank;
use crate::words::lines_of;
use vstd::prelude::*;

verus! {

// ---- answers ----------------------------------------------------------------

/// The transcript once some pieces of an answer have arrived, one after another.
pub open spec fn told(s: ChatState, pieces: Seq<Seq<char>>) -> ChatState
    decreases pieces.len(),
{
    if pieces.len() == 0 {
        s
    } else {
        told(answered(s, pieces[0]), pieces.skip(1))
    }
}

proof fn lemma_patched_rows(
    s: Shown,
    pre: Seq<Seq<char>>,
    rows: Seq<Seq<char>>,
    post: Seq<Seq<char>>,
    from: int,
    d: Drawn,
)
    requires
        s.lines == pre + rows + post,
        0 <= from <= rows.len(),
    ensures
        patched_rows(s, pre.len() + from, pre.len() as int + rows.len(), d).lines == pre + (rows.take(
            from,
        ) + d.rows) + post,
{
    let at = pre.len() + from;
    let to = pre.len() as int + rows.len();
    let p = patched_rows(s, at, to, d);
    if s.lines.subrange(at, to) == d.rows {
        assert(rows =~= rows.take(from) + d.rows) by {
            assert forall|i: int| 0 <= i < d.rows.len() implies rows[from + i]
                == #[trigger] d.rows[i] by {
                assert(s.lines.subrange(at, to)[i] == rows[from + i]);
            }
            assert(s.lines.subrange(at, to).len() == d.rows.len());
        }
    } else {
        assert(p.lines =~= pre + (rows.take(from) + d.rows) + post);
    }
}

/// One piece of an answer, in rows that are known.
proof fn lemma_told_step(
    t: ChatState,
    screen: Drawn,
    piece: Seq<char>,
    pre: Seq<Seq<char>>,
    post: Seq<Seq<char>>,
)
    requires
        t.answer is Some,
        t.answer->0.start == pre.len(),
        t.answer->0.rows == screen.rows.len(),
        0 <= t.answer->0.stream.rows <= screen.rows.len(),
        t.shown.lines == pre + screen.rows + post,
    ensures
        ({
            let st = t.answer->0.stream;
            let said = say(st, piece);
            let d = repainted(said, false);
            let after = answered(t, piece);
            let next = patched(screen, st.rows, d);
            &&& after.answer is Some
            &&& after.answer->0.stream == repaint_of(said, false)
            &&& after.answer->0.start == pre.len()
            &&& after.answer->0.rows == next.rows.len()
            &&& 0 <= after.answer->0.stream.rows <= next.rows.len()
            &&& after.shown.lines == pre + next.rows + post
        }),
{
    let st = t.answer->0.stream;
    let said = say(st, piece);
    let d = repainted(said, false);
    lemma_patched_rows(t.shown, pre, screen.rows, post, st.rows, d);
    assert(settled_part(said, false).rows.len() <= d.rows.len());
}

proof fn lemma_told(
    t: ChatState,
    screen: Drawn,
    pieces: Seq<Seq<char>>,
    pre: Seq<Seq<char>>,
    post: Seq<Seq<char>>,
)
    requires
        t.answer is Some,
        t.answer->0.start == pre.len(),
        t.answer->0.rows == screen.rows.len(),
        0 <= t.answer->0.stream.rows <= screen.rows.len(),
        t.shown.lines == pre + screen.rows + post,
    ensures
        closed(told(t, pieces)).shown.lines == pre + streamed(
            t.answer->0.stream,
            screen,
            pieces,
        ).rows + post,
    decreases pieces.len(),
{
    let st = t.answer->0.stream;
    if pieces.len() == 0 {
        lemma_patched_rows(t.shown, pre, screen.rows, post, st.rows, repainted(st, true));
    } else {
        lemma_told_step(t, screen, pieces[0], pre, post);
        let said = say(st, pieces[0]);
        lemma_told(
            answered(t, pieces[0]),
            patched(screen, st.rows, repainted(said, false)),
            pieces.skip(1),
            pre,
            post,
        );
    }
}

/// An answer looks the same however it arrived: once it is over, the rows it takes are those that
/// rendering the whole of it in one go gives, and so what a reopened conversation shows, between what
/// was above it and what was below.
pub proof fn an_answer_looks_the_same_live_and_replayed(s: ChatState, pieces: Seq<Seq<char>>)
    requires
        sound(s),
        s.answer is None,
        pieces.len() > 0,
    ensures
        ({
            let above = s.shown.lines.take(end_of(s)) + row_texts(
                blank_lines((opening(s) - 1) as nat),
            );
            let below = s.shown.lines.skip(end_of(s));
            let shown = closed(told(s, pieces)).shown.lines;
            shown == above + rendered(all_said(pieces)).rows + below
        }),
{
    let o = answering(s);
    let end = end_of(s);
    let k = opening(s);
    let pre = s.shown.lines.take(end) + row_texts(blank_lines((k - 1) as nat));
    let post = s.shown.lines.skip(end);
    let empty = Drawn { rows: seq![Seq::<char>::empty()], marks: seq![], fence: false };
    assert(row_texts(blank_lines(k)) =~= row_texts(blank_lines((k - 1) as nat)) + empty.rows);
    assert(o.shown.lines =~= pre + empty.rows + post);
    assert(o.answer->0.start == pre.len());
    // The first piece replaces the blank row the answer opened with.
    lemma_told_step(o, empty, pieces[0], pre, post);
    let d = repainted(say(unsaid(), pieces[0]), false);
    let first = patched(empty, 0, d);
    let fresh = patched(blank_screen(), 0, d);
    assert(empty.rows.take(0) =~= blank_screen().rows.take(0));
    assert(empty.marks.filter(|m: Span| m.row < 0) =~= blank_screen().marks.filter(
        |m: Span| m.row < 0,
    )) by {
        reveal(Seq::filter);
    }
    assert(first == fresh);
    assert(answered(o, pieces[0]) == answered(s, pieces[0]));
    lemma_told(answered(s, pieces[0]), first, pieces.skip(1), pre, post);
    assert(streamed(unsaid(), blank_screen(), pieces) == streamed(
        repaint_of(say(unsaid(), pieces[0]), false),
        fresh,
        pieces.skip(1),
    ));
    a_stream_ends_up_where_one_shot_does(pieces);
}

// ---- questions --------------------------------------------------------------

proof fn lemma_marks_stay(marks: Seq<Mark>, at: int, n: int)
    requires
        marks_on_rows(marks, at),
    ensures
        all_carried(marks, at, at, n) == marks,
    decreases marks.len(),
{
    if marks.len() > 0 {
        let less = marks.drop_last();
        assert forall|i: int| 0 <= i < less.len() implies (#[trigger] less[i]).row < at by {
            assert(less[i] == marks[i]);
        }
        lemma_marks_stay(less, at, n);
        assert(marks.last() == marks[marks.len() - 1]);
        assert(all_carried(marks, at, at, n) =~= marks);
    } else {
        assert(all_carried(marks, at, at, n) =~= marks);
    }
}

pub proof fn lemma_rows_marks_concat(at: int, a: Seq<Line>, b: Seq<Line>)
    ensures
        rows_marks(at, a + b) == rows_marks(at, a) + rows_marks(at + a.len(), b),
    decreases b.len(),
{
    if b.len() == 0 {
        assert(a + b =~= a);
        assert(rows_marks(at, a) + rows_marks(at + a.len(), b) =~= rows_marks(at, a));
    } else {
        lemma_rows_marks_concat(at, a, b.drop_last());
        assert((a + b).drop_last() =~= a + b.drop_last());
        assert((a + b).last() == b.last());
        assert(rows_marks(at, a + b) =~= rows_marks(at, a) + rows_marks(at + a.len(), b));
    }
}

pub proof fn lemma_rows_marks_on(at: int, rows: Seq<Line>)
    requires
        0 <= at,
        at + rows.len() <= usize::MAX,
    ensures
        marks_on_rows(rows_marks(at, rows), at + rows.len()),
    decreases rows.len(),
{
    if rows.len() > 0 {
        lemma_rows_marks_on(at, rows.drop_last());
        let row = (at + rows.len() - 1) as usize;
        assert(marks_on_rows(row_marks(row, rows.last()), at + rows.len()));
    }
}

/// Rows put at the end one after another are rows put there together.
proof fn lemma_append_twice(s: ChatState, a: Seq<Line>, b: Seq<Line>)
    requires
        is_quiet(s),
        marks_on_rows(s.shown.marks, s.shown.lines.len() as int),
        s.shown.lines.len() + a.len() + b.len() <= usize::MAX,
    ensures
        appended(appended(s, a), b) == appended(s, a + b),
{
    let n = s.shown.lines.len() as int;
    let one = appended(s, a);
    let two = appended(one, b);
    let both = appended(s, a + b);
    assert(end_of(s) == n);
    lemma_marks_stay(s.shown.marks, n, a.len() as int);
    lemma_marks_stay(s.shown.marks, n, (a + b).len() as int);
    assert(one.shown.lines =~= s.shown.lines + row_texts(a));
    let m = one.shown.lines.len() as int;
    lemma_appended_marks(s, a);
    assert(end_of(one) == m);
    lemma_marks_stay(one.shown.marks, m, b.len() as int);
    lemma_rows_marks_concat(n, a, b);
    assert(row_texts(a + b) =~= row_texts(a) + row_texts(b));
    assert(two.shown.lines =~= both.shown.lines);
    assert(two.shown.marks =~= both.shown.marks);
}

/// The transcript with the pictures of a question read again, one after another. The first of them is
/// where the turn begins.
pub open spec fn pictured(s: ChatState, bar: Seq<char>, images: Seq<Seq<char>>) -> ChatState
    decreases images.len(),
{
    if images.len() == 0 {
        s
    } else {
        appended(
            turn_begun(pictured(s, bar, images.drop_last()), seq![], images.len() > 1),
            seq![barred(bar, images.last())],
        )
    }
}

/// The transcript with a question read again: its pictures, and what was typed under them.
pub open spec fn question_replayed(
    s: ChatState,
    bar: Seq<char>,
    images: Seq<Seq<char>>,
    text: Seq<char>,
) -> ChatState {
    appended(
        turn_begun(pictured(s, bar, images), seq![], images.len() > 0),
        typed_lines(bar, text),
    )
}

/// Rows put at the end leave every mark on a row that is there.
proof fn lemma_appended_marks(s: ChatState, a: Seq<Line>)
    requires
        is_quiet(s),
        marks_on_rows(s.shown.marks, s.shown.lines.len() as int),
        s.shown.lines.len() + a.len() <= usize::MAX,
    ensures
        is_quiet(appended(s, a)),
        appended(s, a).shown.lines.len() == s.shown.lines.len() + a.len(),
        marks_on_rows(
            appended(s, a).shown.marks,
            appended(s, a).shown.lines.len() as int,
        ),
{
    let n = s.shown.lines.len() as int;
    let one = appended(s, a);
    assert(end_of(s) == n);
    lemma_marks_stay(s.shown.marks, n, a.len() as int);
    assert(one.shown.lines =~= s.shown.lines + row_texts(a));
    lemma_rows_marks_on(n, a);
    assert forall|i: int| 0 <= i < one.shown.marks.len() implies (
    #[trigger] one.shown.marks[i]).row < n + a.len() by {
        if i < s.shown.marks.len() {
            assert(one.shown.marks[i] == s.shown.marks[i]);
        } else {
            assert(one.shown.marks[i] == rows_marks(n, a)[i - s.shown.marks.len()]);
        }
    }
}

proof fn lemma_pictured(s: ChatState, bar: Seq<char>, images: Seq<Seq<char>>)
    requires
        is_quiet(s),
        marks_on_rows(s.shown.marks, s.shown.lines.len() as int),
        s.shown.lines.len() + images.len() <= usize::MAX,
        turn_begun(s, seq![], false) == s,
    ensures
        pictured(s, bar, images) == appended(s, images.map_values(|i: Seq<char>| barred(bar, i)))
            || images.len() == 0,
    decreases images.len(),
{
    let rows = images.map_values(|i: Seq<char>| barred(bar, i));
    if images.len() > 1 {
        let less = images.drop_last();
        let above = less.map_values(|i: Seq<char>| barred(bar, i));
        lemma_pictured(s, bar, less);
        lemma_append_twice(s, above, seq![barred(bar, images.last())]);
        assert(rows =~= above + seq![barred(bar, images.last())]);
    } else if images.len() == 1 {
        assert(images.drop_last() =~= seq![]);
        assert(pictured(s, bar, images.drop_last()) == s);
        assert(rows =~= seq![barred(bar, images.last())]);
    }
}

/// A question looks the same live and replayed: what is drawn when it is asked is what is drawn when
/// the conversation is read again, its pictures and what was typed under them, rows and colours. The
/// bar has to be something that can be seen, and the question has to have a picture or a line.
pub proof fn a_question_looks_the_same_live_and_replayed(
    s: ChatState,
    bar: Seq<char>,
    images: Seq<Seq<char>>,
    text: Seq<char>,
)
    requires
        sound(s),
        is_quiet(s),
        !is_blank(bar),
        images.len() + lines_of(text).len() > 0,
        s.shown.lines.len() + images.len() + lines_of(text).len() + 2 <= usize::MAX,
    ensures
        asked(s, bar, images, text).shown == question_replayed(s, bar, images, text).shown,
{
    let pics = images.map_values(|i: Seq<char>| barred(bar, i));
    let qs = lines_of(text).map_values(|l: Seq<char>| barred(bar, l));
    let rows = pics + qs;
    assert(!all_blank(rows)) by {
        let first = rows[0].text;
        assert(first == bar + " "@ + (if images.len() > 0 {
            images[0]
        } else {
            lines_of(text)[0]
        }));
        let j = choose|j: int| 0 <= j < bar.len() && !crate::text::is_white(#[trigger] bar[j]);
        assert(first[j] == bar[j]);
        assert(!is_blank(first));
        assert(!is_blank(rows[0].text));
    }
    assert(question_lines(bar, images, text) == rows);
    let blank = seq![bare_line(seq![])];
    let typed = typed_lines(bar, text);
    assert(typed =~= qs.push(bare_line(seq![])));
    let gap = is_against(s, end_of(s));
    let all = rows.push(bare_line(seq![]));
    assert(all =~= pics + typed);
    assert(asked(s, bar, images, text).shown == appended(s, with_gap(gap, all)).shown);
    let no_rows: Seq<Line> = seq![];
    assert(summarised(s, no_rows) == s);
    let g = turn_begun(s, no_rows, false);
    if gap {
        lemma_append_twice(s, blank, all);
        lemma_appended_marks(s, blank);
        assert(g.shown.lines.last() =~= seq![]);
        assert(is_blank(g.shown.lines.last()));
    }
    assert(turn_begun(g, no_rows, false) == g);
    assert(asked(s, bar, images, text).shown == appended(g, all).shown);
    if images.len() > 0 {
        lemma_begun_pictures(s, g, bar, images);
        lemma_pictured(g, bar, images);
        lemma_append_twice(g, pics, typed);
    } else {
        assert(pics =~= seq![]);
        assert(all =~= typed);
    }
}

/// It makes no difference whether the turn has begun when its first picture is drawn.
proof fn lemma_begun_pictures(s: ChatState, g: ChatState, bar: Seq<char>, images: Seq<Seq<char>>)
    requires
        images.len() > 0,
        g == turn_begun(s, seq![], false),
        turn_begun(g, seq![], false) == g,
    ensures
        pictured(s, bar, images) == pictured(g, bar, images),
    decreases images.len(),
{
    if images.len() > 1 {
        lemma_begun_pictures(s, g, bar, images.drop_last());
    } else {
        assert(images.drop_last() =~= seq![]);
        assert(pictured(s, bar, images.drop_last()) == s);
        assert(pictured(g, bar, images.drop_last()) == g);
    }
}

/// Nothing that is said moves what has been said: putting rows at the end keeps every row above.
pub proof fn what_was_said_stays(s: ChatState, rows: Seq<Line>)
    requires
        sound(s),
        s.answer is None,
    ensures
        pushed(s, rows).shown.lines.take(end_of(s)) == s.shown.lines.take(end_of(s)),
        pushed(s, rows).shown.lines.skip(end_of(s) + rows.len()) == s.shown.lines.skip(end_of(s)),
        pushed(s, rows).cards == s.cards,
{
    let p = pushed(s, rows);
    assert(p.shown.lines.take(end_of(s)) =~= s.shown.lines.take(end_of(s)));
    assert(p.shown.lines.skip(end_of(s) + rows.len()) =~= s.shown.lines.skip(end_of(s)));
}

} // verus!
