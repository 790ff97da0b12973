//! Markdown for a transcript that is still being written.
//!
//! An answer arrives a few characters at a time, and the whole of it has to look right after every
//! one of them. Drawing the entire answer again per token is quadratic in its length, so a block is
//! *settled* once it cannot change: a paragraph followed by a blank line, a heading with its newline,
//! a fence with its closing back-ticks. Settled blocks are drawn once and never looked at again. Only
//! what comes after them is drawn again, and that is bounded by the size of one block rather than by
//! the size of the answer.
//!
//! What is drawn: headings, lists, block quotes, rules, fenced and indented code, tables, and inside a
//! line bold, italic, struck-out and code spans and links. Markers are removed rather than styled.

use crate::markdown::block::{
    fence_language, fence_marker, is_title, push_spaces, render_block_line, strip_newline,
};
use crate::markdown::bounds::{inside, lemma_draw_rows};
use crate::markdown::inline::{lemma_moved_nowhere, mark_since};
use crate::markdown::lines::{are_lines, cut_lines, joined, lemma_joined_concat, lemma_raw_lines};
use crate::markdown::model::{
    block, block_len, draw, draw_text, is_table, is_whole, language, moved, nothing, patched,
    repaint_of, repainted, say, settled_chars, settled_lines, settled_part, settles, single, spaces,
     stack, unsaid, unsettled, Drawn, Span, Stream,
};
use crate::markdown::stacking::{
    lemma_finished, lemma_repainted_inside, lemma_settled_lines, lemma_stack_assoc,
    lemma_stack_nothing, lemma_table_fence,
};
use crate::markdown::table::{
    cells, drawn_after, lemma_drawn_after, lemma_drawn_nothing, lemma_marked_row, line_texts, table,
    table_len,
};
use crate::text::{chars_of, is_blank, lemma_trim_blank, push_chars, raw_lines, texts, trim};
use vstd::prelude::*;
use vstd::slice::slice_subrange;

pub mod block;
pub mod bounds;
pub mod inline;
pub mod laws;
pub mod lines;
pub mod model;
pub mod promises;
pub mod settling;
pub mod stacking;
pub mod table;
pub mod tabling;
pub mod wording;

verus! {

/// One styled span of one rendered row: `(row, byte from, byte to, highlight group)`.
///
/// Rows are relative to the start of the patch; byte offsets are into the row's own text.
pub type Mark = (usize, usize, usize, &'static str);

/// The span that a mark stands for.
pub open spec fn span_of(m: Mark) -> Span {
    Span { row: m.0 as int, from: m.1 as int, to: m.2 as int, group: m.3 }
}

/// The spans that some marks stand for.
pub open spec fn spans(m: Seq<Mark>) -> Seq<Span> {
    m.map_values(|m: Mark| span_of(m))
}

/// Draw one source line that is not part of a table.
fn draw_line(raw: &[char], fence: &mut bool, lines: &mut Vec<String>, marks: &mut Vec<Mark>)
    ensures
        drawn_after(
            texts(old(lines)@),
            spans(old(marks)@),
            texts(final(lines)@),
            spans(final(marks)@),
            single(raw@, *old(fence)),
        ),
        *final(fence) == single(raw@, *old(fence)).fence,
{
    let line = strip_newline(raw);
    let row = lines.len();
    let ghost rows0 = texts(lines@);
    let ghost marks0 = spans(marks@);
    assert(rows0.len() == row);
    if fence_marker(line) {
        let name = fence_language(line);
        // The closing marker is not drawn: it was punctuation for the parser.
        if *fence || name.len() == 0 {
            *fence = !*fence;
            proof {
                lemma_drawn_nothing(rows0, marks0, *fence);
            }
            return;
        }
        *fence = true;
        let mut text = String::new();
        push_spaces(&mut text, 2);
        push_chars(&mut text, name);
        proof {
            assert(text@ =~= spaces(2) + language(line@));
            lemma_marked_row(rows0, marks0, text@, "Markdown.Fence");
        }
        mark_since(row, 0, "Markdown.Fence", &text, marks);
        let ghost said = text@;
        lines.push(text);
        assert(texts(lines@) =~= rows0.push(said));
        return;
    }
    if *fence {
        let mut text = String::new();
        push_spaces(&mut text, 2);
        push_chars(&mut text, line);
        proof {
            assert(text@ =~= spaces(2) + line@);
            lemma_marked_row(rows0, marks0, text@, "Markdown.Code");
        }
        mark_since(row, 0, "Markdown.Code", &text, marks);
        let ghost said = text@;
        lines.push(text);
        assert(texts(lines@) =~= rows0.push(said));
        return;
    }
    let text = render_block_line(line, row, marks);
    let ghost said = text@;
    lines.push(text);
    proof {
        assert(texts(lines@) =~= rows0 + seq![said]);
    }
}

/// Draw some markdown under what is already drawn, carrying the fence state in and out.
fn render_into(text: &[char], fence: &mut bool, lines: &mut Vec<String>, marks: &mut Vec<Mark>)
    ensures
        drawn_after(
            texts(old(lines)@),
            spans(old(marks)@),
            texts(final(lines)@),
            spans(final(marks)@),
            draw_text(text@, *old(fence)),
        ),
        *final(fence) == draw_text(text@, *old(fence)).fence,
{
    let raw = cut_lines(text);
    let ghost ls = line_texts(raw@);
    let ghost fence0 = *fence;
    let ghost rows0 = texts(lines@);
    let ghost marks0 = spans(marks@);
    let ghost mut done: Drawn = nothing(fence0);
    let mut at: usize = 0;
    proof {
        lemma_drawn_nothing(rows0, marks0, fence0);
        assert(ls.skip(0) =~= ls);
        lemma_stack_nothing(draw(ls, fence0), fence0);
    }
    while at < raw.len()
        invariant
            at <= raw@.len(),
            ls == line_texts(raw@),
            done.fence == *fence,
            drawn_after(rows0, marks0, texts(lines@), spans(marks@), done),
            stack(done, draw(ls.skip(at as int), *fence)) == draw(ls, fence0),
        decreases raw@.len() - at,
    {
        let ghost rest = ls.skip(at as int);
        let ghost fence1 = *fence;
        let ghost rows1 = texts(lines@);
        let ghost marks1 = spans(marks@);
        assert(rest[0] == raw@[at as int]@);
        // A table is the one construct that spans lines, so it is recognised before the rules for
        // one line get a chance to read its bars as prose.
        let mut taken: usize = 0;
        if !*fence {
            if let Some(n) = table(&raw, at, lines, marks) {
                taken = n;
            }
        }
        if taken == 0 {
            draw_line(raw[at], fence, lines, marks);
            taken = 1;
        }
        proof {
            let b = block(rest, fence1);
            assert(taken == block_len(rest, fence1));
            assert(drawn_after(rows1, marks1, texts(lines@), spans(marks@), b));
            lemma_drawn_after(rows0, marks0, rows1, marks1, texts(lines@), spans(marks@), done, b);
            assert(rest.skip(taken as int) =~= ls.skip(at + taken));
            lemma_stack_assoc(done, b, draw(rest.skip(taken as int), b.fence));
            if !fence1 && is_table(rest) {
                lemma_table_fence(rest);
            }
            done = stack(done, b);
        }
        at = at + taken;
    }
    proof {
        assert(ls.skip(at as int) =~= seq![]);
        lemma_stack_nothing(done, *fence);
    }
}

/// Whether a line by itself is a block that can no longer change: the marker that closes a fence, a
/// blank line, or a heading that its newline has ended and that cannot become the header of a table.
fn settles_alone(raw: &[char], fence: bool) -> (r: bool)
    ensures
        r == settles(raw@, fence),
{
    if !ends_with_newline(raw) {
        return false;
    }
    let line = strip_newline(raw);
    if fence_marker(line) {
        return fence;
    }
    !fence && (blank(line) || (is_title(line) && cells(raw).is_none()))
}

/// The fence state after a line that is not part of a table.
fn fence_after(raw: &[char], fence: bool) -> (r: bool)
    ensures
        r == single(raw@, fence).fence,
{
    let line = strip_newline(raw);
    fence_marker(line) != fence
}

/// How many characters from the start of `tail` belong to blocks that can no longer change.
///
/// A block ends at a blank line outside a fence, at a fence's closing marker, or at a heading once
/// its newline has arrived: until then the next character could still be part of it. A line inside a
/// table ends nothing, whatever it looks like.
fn settled_len(tail: &[char], in_fence: bool) -> (n: usize)
    ensures
        n == settled_chars(tail@, in_fence),
        n <= tail@.len(),
{
    let raw = cut_lines(tail);
    let ghost ls = line_texts(raw@);
    let mut fence = in_fence;
    let mut boundary: usize = 0;
    let mut at: usize = 0;
    let mut i: usize = 0;
    let ghost mut k: int = 0;
    let total = tail.len();
    proof {
        lemma_raw_lines(tail@);
        assert(ls.take(0) =~= seq![]);
        assert(ls.skip(0) =~= ls);
        lemma_settled_lines(ls, in_fence);
    }
    while i < raw.len()
        invariant
            i <= raw@.len(),
            ls == line_texts(raw@),
            ls == raw_lines(tail@),
            joined(ls) == tail@,
            total == tail@.len(),
            are_lines(ls),
            at == joined(ls.take(i as int)).len(),
            0 <= k <= i,
            boundary == joined(ls.take(k)).len(),
            boundary <= total,
            settled_lines(ls, in_fence) == (if settled_lines(ls.skip(i as int), fence) > 0 {
                i + settled_lines(ls.skip(i as int), fence)
            } else {
                k
            }),
        decreases raw@.len() - i,
    {
        let ghost rest = ls.skip(i as int);
        let ghost fence0 = fence;
        assert(rest[0] == raw@[i as int]@);
        let mut taken: usize = 1;
        let mut done = false;
        let span = if fence {
            None
        } else {
            table_len(&raw, i)
        };
        match span {
            Some(n) => {
                taken = n;
                proof {
                    lemma_table_fence(rest);
                }
            },
            None => {
                done = settles_alone(raw[i], fence);
                fence = fence_after(raw[i], fence);
            },
        }
        proof {
            assert(taken == block_len(rest, fence0));
            assert(fence == block(rest, fence0).fence);
            assert(rest.skip(taken as int) =~= ls.skip(i + taken));
            lemma_settled_lines(rest.skip(taken as int), fence);
        }
        let end = i + taken;
        while i < end
            invariant
                i <= end <= raw@.len(),
                ls == line_texts(raw@),
                joined(ls) == tail@,
                total == tail@.len(),
                at == joined(ls.take(i as int)).len(),
            decreases end - i,
        {
            proof {
                let upto = ls.take(i + 1);
                assert(upto.drop_last() =~= ls.take(i as int));
                assert(upto.last() == raw@[i as int]@);
                assert(ls =~= upto + ls.skip(i + 1));
                lemma_joined_concat(upto, ls.skip(i + 1));
            }
            at = at + raw[i].len();
            i = i + 1;
        }
        if done {
            proof {
                assert(ls =~= ls.take(i as int) + ls.skip(i as int));
                lemma_joined_concat(ls.take(i as int), ls.skip(i as int));
                k = i as int;
            }
            boundary = at;
        }
    }
    assert(ls.skip(i as int) =~= seq![]);
    boundary
}

/// Whether a line has its newline.
fn ends_with_newline(line: &[char]) -> (r: bool)
    ensures
        r == is_whole(line@),
{
    line.len() > 0 && line[line.len() - 1] == '\n'
}

/// Whether there is nothing on a line.
fn blank(line: &[char]) -> (r: bool)
    ensures
        r == is_blank(line@),
{
    proof {
        lemma_trim_blank(line@);
    }
    trim(line).len() == 0
}

/// Rows to replace, and how to colour them.
#[derive(Debug, Default, PartialEq)]
pub struct Patch {
    /// First row of the answer that this replaces. Everything from here to the end of the answer
    /// goes; `lines` takes its place.
    pub from: usize,
    pub lines: Vec<String>,
    pub marks: Vec<Mark>,
}

impl Patch {
    /// Whether this replaces the rows from `from` on by what `d` says.
    pub open spec fn shows(self, from: int, d: Drawn) -> bool {
        &&& self.from == from
        &&& texts(self.lines@) == d.rows
        &&& spans(self.marks@) == d.marks
    }
}

/// One answer, rendered as it arrives.
#[derive(Debug)]
pub struct Md {
    raw: Vec<char>,
    settled: usize,
    rows: usize,
    in_fence: bool,
}

impl View for Md {
    type V = Stream;

    closed spec fn view(&self) -> Stream {
        Stream {
            said: self.raw@,
            settled: self.settled as int,
            rows: self.rows as int,
            fence: self.in_fence,
        }
    }
}

impl Default for Md {
    fn default() -> (r: Self)
        ensures
            r@ == unsaid(),
            r.wf(),
    {
        Md { raw: Vec::new(), settled: 0, rows: 0, in_fence: false }
    }
}

impl Md {
    /// What is settled was said, and drew no more rows than it has characters.
    pub open spec fn wf(self) -> bool {
        0 <= self@.rows <= self@.settled <= self@.said.len()
    }

    /// An answer that nothing has been said of yet.
    pub fn new() -> (r: Self)
        ensures
            r@ == unsaid(),
            r.wf(),
    {
        Md::default()
    }

    /// Feed more of the answer, and get back the rows that changed.
    pub fn push(&mut self, text: &str) -> (r: Patch)
        requires
            old(self).wf(),
        ensures
            final(self).wf(),
            final(self)@ == repaint_of(say(old(self)@, text@), false),
            r.shows(old(self)@.rows, repainted(say(old(self)@, text@), false)),
    {
        let mut more = chars_of(text);
        self.raw.append(&mut more);
        self.repaint(false)
    }

    /// The answer is complete: settle the trailing block even without a blank line after it.
    pub fn finish(&mut self) -> (r: Patch)
        requires
            old(self).wf(),
        ensures
            final(self).wf(),
            final(self)@ == repaint_of(old(self)@, true),
            r.shows(old(self)@.rows, repainted(old(self)@, true)),
    {
        self.repaint(true)
    }

    fn repaint(&mut self, complete: bool) -> (r: Patch)
        requires
            old(self).wf(),
        ensures
            final(self).wf(),
            final(self)@ == repaint_of(old(self)@, complete),
            r.shows(old(self)@.rows, repainted(old(self)@, complete)),
    {
        let ghost s = self@;
        let from = self.rows;
        let tail = slice_subrange(self.raw.as_slice(), self.settled, self.raw.len());
        assert(tail@ =~= unsettled(s));

        // How much of the tail is finished. When the answer is over, all of it is.
        let done = if complete {
            tail.len()
        } else {
            settled_len(tail, self.in_fence)
        };
        let settled = slice_subrange(tail, 0, done);
        let rest = slice_subrange(tail, done, tail.len());
        assert(settled@ =~= unsettled(s).take(done as int));
        assert(rest@ =~= unsettled(s).skip(done as int));

        let mut lines: Vec<String> = Vec::new();
        let mut marks: Vec<Mark> = Vec::new();
        let mut fence = self.in_fence;
        let ghost no_rows = texts(lines@);
        let ghost no_marks = spans(marks@);
        assert(no_rows =~= seq![]);
        assert(no_marks =~= seq![]);
        render_into(settled, &mut fence, &mut lines, &mut marks);
        let rows = lines.len();
        let ghost part = settled_part(s, complete);
        let ghost rows1 = texts(lines@);
        let ghost marks1 = spans(marks@);
        proof {
            assert(rows1 =~= part.rows);
            assert(rows1.len() == rows);
            lemma_raw_lines(settled@);
            lemma_draw_rows(raw_lines(settled@), s.fence);
        }

        // The unfinished remainder, drawn but not banked, by the same function as everything else.
        let mut tail_fence = fence;
        render_into(rest, &mut tail_fence, &mut lines, &mut marks);
        proof {
            lemma_drawn_after(no_rows, no_marks, rows1, marks1, texts(lines@), spans(marks@), part,
                draw_text(rest@, part.fence));
            let all = repainted(s, complete);
            lemma_moved_nowhere(all.marks);
            assert(texts(lines@) =~= all.rows);
            assert(spans(marks@) =~= all.marks);
        }

        self.settled = self.settled + done;
        self.rows = self.rows + rows;
        self.in_fence = fence;
        Patch { from, lines, marks }
    }
}

/// Put a patch in the place of the rows it replaces.
fn apply(lines: &mut Vec<String>, marks: &mut Vec<Mark>, patch: Patch, Ghost(d): Ghost<Drawn>)
    requires
        patch.shows(patch.from as int, d),
        patch.from <= old(lines)@.len(),
        inside(d),
    ensures
        texts(final(lines)@) == patched(
            Drawn { rows: texts(old(lines)@), marks: spans(old(marks)@), fence: false },
            patch.from as int,
            d,
        ).rows,
        spans(final(marks)@) == patched(
            Drawn { rows: texts(old(lines)@), marks: spans(old(marks)@), fence: false },
            patch.from as int,
            d,
        ).marks,
{
    let ghost rows0 = texts(lines@);
    let ghost marks0 = spans(marks@);
    let mut patch = patch;
    let from = patch.from;
    let ghost shown = patch;
    lines.truncate(from);
    lines.append(&mut patch.lines);
    assert(texts(lines@) =~= rows0.take(from as int) + d.rows);
    let total = lines.len();
    assert(total == texts(lines@).len());

    let mut kept: Vec<Mark> = Vec::new();
    let mut i: usize = 0;
    let ghost p = |m: Span| m.row < from;
    assert(marks0.take(0) =~= seq![]);
    assert(spans(kept@) =~= marks0.take(0).filter(p)) by {
        reveal(Seq::filter);
    }
    while i < marks.len()
        invariant
            i <= marks@.len(),
            p == (|m: Span| m.row < from),
            marks0 == spans(marks@),
            spans(kept@) == marks0.take(i as int).filter(p),
        decreases marks@.len() - i,
    {
        let m = marks[i];
        let ghost before = spans(kept@);
        proof {
            assert(marks0.take(i + 1).drop_last() =~= marks0.take(i as int));
            assert(marks0.take(i + 1).last() == span_of(m));
            reveal(Seq::filter);
        }
        if m.0 < from {
            kept.push(m);
            assert(spans(kept@) =~= before.push(span_of(m)));
        }
        i = i + 1;
    }
    assert(marks0.take(i as int) =~= marks0);
    let ghost below = spans(kept@);
    let mut k: usize = 0;
    let ghost more = moved(d.marks, from as int, 0);
    assert(spans(kept@) =~= below + more.take(0));
    while k < patch.marks.len()
        invariant
            k <= patch.marks@.len(),
            patch.marks == shown.marks,
            spans(shown.marks@) == d.marks,
            more == moved(d.marks, from as int, 0),
            inside(d),
            from + d.rows.len() == total,
            spans(kept@) == below + more.take(k as int),
        decreases patch.marks@.len() - k,
    {
        let m = patch.marks[k];
        assert(d.marks[k as int] == span_of(m));
        let ghost before = spans(kept@);
        kept.push((m.0 + from, m.1, m.2, m.3));
        proof {
            assert(spans(kept@) =~= before.push(more[k as int]));
            assert(below + more.take(k + 1) =~= (below + more.take(k as int)).push(more[k as int]));
        }
        k = k + 1;
    }
    assert(more.take(k as int) =~= more);
    *marks = kept;
}

/// What a finished piece of markdown shows.
pub open spec fn rendered(text: Seq<char>) -> Drawn {
    repainted(say(unsaid(), text), false)
}

/// Render a complete piece of markdown in one go.
///
/// For a stored message, which is finished by definition. Goes through the same [`Md`] the live
/// stream does rather than a second renderer, because two renderers is how a reopened conversation
/// ends up not looking like the one you were just in.
pub fn render(text: &str) -> (r: (Vec<String>, Vec<Mark>))
    ensures
        texts(r.0@) == rendered(text@).rows,
        spans(r.1@) == rendered(text@).marks,
{
    let mut md = Md::new();
    let mut lines: Vec<String> = Vec::new();
    let mut marks: Vec<Mark> = Vec::new();
    let ghost s0 = say(unsaid(), text@);
    let ghost d0 = rendered(text@);
    let first = md.push(text);
    proof {
        lemma_repainted_inside(s0, false);
        lemma_repainted_inside(repaint_of(s0, false), true);
    }
    apply(&mut lines, &mut marks, first, Ghost(d0));
    let ghost s1 = md@;
    let ghost d1 = repainted(s1, true);
    proof {
        assert(texts(lines@) =~= d0.rows);
        assert(spans(marks@) =~= d0.marks) by {
            lemma_moved_nowhere(d0.marks);
            assert(Seq::<Span>::empty().filter(|m: Span| m.row < 0) =~= seq![]) by {
                reveal(Seq::filter);
            }
        }
        assert(texts(lines@).len() == lines@.len());
    }
    let second = md.finish();
    apply(&mut lines, &mut marks, second, Ghost(d1));
    proof {
        lemma_finished(s0);
        assert(s1.rows == settled_part(s0, false).rows.len());
    }
    (lines, marks)
}

} // verus!
