//! Drawing one thing under another.

use crate::markdown::bounds::{inside, lemma_stack_inside, marks_lie_on_their_rows};
use crate::markdown::inline::{lemma_moved_concat, lemma_moved_nowhere, lemma_moved_twice};
use crate::markdown::lines::{joined, lemma_lines_rejoined, lemma_raw_lines};
use crate::markdown::model::{
    block, block_len, cells_of, draw, draw_text, entries, is_whole, moved, nothing, patched,
    records_of, repaint_of, repainted, settled_chars, settled_lines, settled_part, settling, stack,
    table_of, table_rows, unsettled, Drawn, Span, Stream,
};
use crate::text::raw_lines;
use vstd::prelude::*;

verus! {

/// It does not matter in what order drawings are put under one another.
pub proof fn lemma_stack_assoc(a: Drawn, b: Drawn, c: Drawn)
    ensures
        stack(stack(a, b), c) == stack(a, stack(b, c)),
{
    let l = stack(stack(a, b), c);
    let r = stack(a, stack(b, c));
    let na = a.rows.len() as int;
    let nb = b.rows.len() as int;
    lemma_moved_concat(b.marks, moved(c.marks, nb, 0), na, 0);
    lemma_moved_twice(c.marks, nb, 0, na, 0);
    assert(l.rows =~= r.rows);
    assert(l.marks =~= r.marks);
}

/// Drawing nothing changes nothing.
pub proof fn lemma_stack_nothing(a: Drawn, fence: bool)
    ensures
        stack(nothing(fence), a) == a,
        a.fence == fence ==> stack(a, nothing(fence)) == a,
{
    lemma_moved_nowhere(a.marks);
    assert(stack(nothing(fence), a).rows =~= a.rows);
    assert(stack(nothing(fence), a).marks =~= a.marks);
    assert(stack(a, nothing(fence)).rows =~= a.rows);
    assert(stack(a, nothing(fence)).marks =~= a.marks);
}

/// A table leaves no fence open.
pub proof fn lemma_table_fence(raw: Seq<Seq<char>>)
    ensures
        !table_of(raw).fence,
{
    let header = cells_of(raw[0])->0;
    let rows = table_rows(raw.skip(2));
    lemma_records_fence(header, rows, rows.len() as int);
}

proof fn lemma_records_fence(header: Seq<Seq<char>>, rows: Seq<Seq<Seq<char>>>, n: int)
    ensures
        !records_of(header, rows, n).fence,
{
    if n > 0 {
        lemma_entries_fence(header, rows[n - 1], rows[n - 1].len() as int);
    }
}

proof fn lemma_entries_fence(header: Seq<Seq<char>>, row: Seq<Seq<char>>, n: int)
    ensures
        !entries(header, row, n).fence,
{
}

pub proof fn lemma_settled_lines(raw: Seq<Seq<char>>, fence: bool)
    ensures
        0 <= settled_lines(raw, fence) <= raw.len(),
        settled_lines(raw, fence) > 0 ==> is_whole(raw[settled_lines(raw, fence) - 1]),
    decreases raw.len(),
{
    let n = block_len(raw, fence);
    if 0 < n <= raw.len() {
        let rest = raw.skip(n);
        let f = block(raw, fence).fence;
        lemma_settled_lines(rest, f);
        if settled_lines(rest, f) > 0 {
            assert(rest[settled_lines(rest, f) - 1] == raw[settled_lines(raw, fence) - 1]);
        }
    }
}

/// What is settled of a text is a number of whole lines at its front.
pub proof fn lemma_settled(text: Seq<char>, fence: bool)
    ensures
        ({
            let k = settled_lines(raw_lines(text), fence);
            let n = settled_chars(text, fence);
            &&& 0 <= k <= raw_lines(text).len()
            &&& 0 <= n <= text.len()
            &&& raw_lines(text.take(n)) == raw_lines(text).take(k)
            &&& raw_lines(text.skip(n)) == raw_lines(text).skip(k)
            &&& n == 0 || text[n - 1] == '\n'
        }),
{
    let ls = raw_lines(text);
    let k = settled_lines(ls, fence);
    lemma_settled_lines(ls, fence);
    lemma_raw_lines(text);
    if k == ls.len() && text.len() > 0 {
        let last = ls.last();
        assert(ls.drop_last().push(last) =~= ls);
        assert(text == joined(ls.drop_last()) + last);
        assert(text.last() == last.last());
    }
    lemma_lines_rejoined(text, k);
    let n = settled_chars(text, fence);
    if n > 0 {
        assert(text.take(n).last() == text[n - 1]);
    }
}

/// What is drawn again keeps its marks on its rows.
pub proof fn lemma_repainted_inside(s: Stream, complete: bool)
    ensures
        inside(repainted(s, complete)),
        inside(settled_part(s, complete)),
{
    let part = settled_part(s, complete);
    let rest = unsettled(s).skip(settling(s, complete));
    marks_lie_on_their_rows(raw_lines(unsettled(s).take(settling(s, complete))), s.fence);
    marks_lie_on_their_rows(raw_lines(rest), part.fence);
    lemma_stack_inside(part, draw_text(rest, part.fence));
}

proof fn lemma_filter_all(m: Seq<Span>, n: int)
    requires
        forall|i: int| 0 <= i < m.len() ==> (#[trigger] m[i]).row < n,
    ensures
        m.filter(|x: Span| x.row < n) == m,
    decreases m.len(),
{
    reveal(Seq::filter);
    if m.len() > 0 {
        lemma_filter_all(m.drop_last(), n);
        assert(m.drop_last().push(m.last()) =~= m);
    }
}

proof fn lemma_filter_none(a: Seq<Span>, b: Seq<Span>, n: int)
    requires
        forall|i: int| 0 <= i < b.len() ==> (#[trigger] b[i]).row >= n,
    ensures
        (a + b).filter(|x: Span| x.row < n) == a.filter(|x: Span| x.row < n),
    decreases b.len(),
{
    reveal(Seq::filter);
    if b.len() == 0 {
        assert(a + b =~= a);
    } else {
        lemma_filter_none(a, b.drop_last(), n);
        assert((a + b).drop_last() =~= a + b.drop_last());
        assert((a + b).last() == b.last());
    }
}

/// Replacing what stands below `a` leaves `a` alone.
pub proof fn lemma_patch_below(a: Drawn, b: Drawn, c: Drawn)
    requires
        inside(a),
        inside(b),
    ensures
        patched(stack(a, b), a.rows.len() as int, c) == stack(a, c),
{
    let n = a.rows.len() as int;
    let s = stack(a, b);
    assert(s.rows.take(n) =~= a.rows);
    let mb = moved(b.marks, n, 0);
    assert forall|i: int| 0 <= i < mb.len() implies (#[trigger] mb[i]).row >= n by {
        assert(b.marks[i].row >= 0);
    }
    lemma_filter_none(a.marks, mb, n);
    lemma_filter_all(a.marks, n);
}

/// Finishing an answer right after saying it changes nothing on screen.
pub proof fn lemma_finished(s: Stream)
    requires
        0 <= s.settled <= s.said.len(),
    ensures
        patched(
            Drawn { rows: repainted(s, false).rows, marks: repainted(s, false).marks, fence: false },
            settled_part(s, false).rows.len() as int,
            repainted(repaint_of(s, false), true),
        ).rows == repainted(s, false).rows,
        patched(
            Drawn { rows: repainted(s, false).rows, marks: repainted(s, false).marks, fence: false },
            settled_part(s, false).rows.len() as int,
            repainted(repaint_of(s, false), true),
        ).marks == repainted(s, false).marks,
{
    let part = settled_part(s, false);
    let rest = draw_text(unsettled(s).skip(settling(s, false)), part.fence);
    let next = repaint_of(s, false);
    let n = settling(s, false);
    lemma_repainted_inside(s, false);
    marks_lie_on_their_rows(raw_lines(unsettled(s).skip(n)), part.fence);
    lemma_patch_below(part, rest, repainted(next, true));
    lemma_settled(unsettled(s), s.fence);
    assert(unsettled(next) =~= unsettled(s).skip(n));
    let t = unsettled(next);
    assert(t.take(t.len() as int) =~= t);
    assert(t.skip(t.len() as int) =~= seq![]);
    assert(raw_lines(Seq::<char>::empty()) =~= seq![]);
    let last = settled_part(next, true);
    assert(draw(seq![], last.fence) == nothing(last.fence));
    lemma_stack_nothing(last, last.fence);
    assert(repainted(next, true) == rest);
}

} // verus!
