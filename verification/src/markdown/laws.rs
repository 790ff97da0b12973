//! What holds of an answer however it arrives.

use crate::markdown::bounds::{lemma_block_len, lemma_lines_skip, marks_lie_on_their_rows};
use crate::markdown::lines::{are_lines, lemma_joined_concat, lemma_raw_lines, lemma_raw_lines_concat};
use crate::markdown::model::{
    bare, block, block_len, cells_of, draw, draw_text, is_fence, is_heading, is_table, is_whole,
    nothing, patched, repaint_of, repainted, say, settled_chars, settled_lines, settled_part,
    settling, stack, table_rows, unsaid, unsettled, Drawn, Stream,
};
use crate::markdown::rendered;
use crate::markdown::stacking::{
    lemma_patch_below, lemma_settled, lemma_settled_lines, lemma_stack_assoc, lemma_stack_nothing,
};
use crate::text::{is_blank, lemma_trim_blank, raw_lines, trim_of};
use vstd::prelude::*;

verus! {

/// Whether one block ends and the next begins after the first `k` lines.
pub open spec fn seam(raw: Seq<Seq<char>>, fence: bool, k: int) -> bool
    decreases raw.len(),
{
    if k <= 0 {
        k == 0
    } else {
        let n = block_len(raw, fence);
        0 < n <= raw.len() && n <= k && seam(raw.skip(n), block(raw, fence).fence, k - n)
    }
}

proof fn lemma_rows_prefix(raw: Seq<Seq<char>>, j: int)
    requires
        are_lines(raw),
        table_rows(raw).len() <= j <= raw.len(),
    ensures
        table_rows(raw.take(j)) == table_rows(raw),
    decreases raw.len(),
{
    let p = raw.take(j);
    if raw.len() == 0 || (raw.len() == 1 && !is_whole(raw[0])) {
        assert(j == 0 || p =~= raw);
        assert(table_rows(p) =~= table_rows(raw));
    } else if j == 0 {
        assert(table_rows(p) =~= table_rows(raw));
    } else {
        assert(is_whole(raw[0]));
        assert(p[0] == raw[0]);
        if cells_of(raw[0]) is Some {
            lemma_lines_skip(raw, 1);
            assert(table_rows(raw) == seq![cells_of(raw[0])->0] + table_rows(raw.skip(1)));
            lemma_rows_prefix(raw.skip(1), j - 1);
            assert(p.skip(1) =~= raw.skip(1).take(j - 1));
        }
    }
}

/// The first block is the same whatever follows the lines that end it.
pub proof fn lemma_block_prefix(raw: Seq<Seq<char>>, fence: bool, k: int)
    requires
        are_lines(raw),
        1 <= block_len(raw, fence) <= k <= raw.len(),
    ensures
        block_len(raw.take(k), fence) == block_len(raw, fence),
        block(raw.take(k), fence) == block(raw, fence),
{
    let p = raw.take(k);
    assert(p[0] == raw[0]);
    if k >= 2 {
        assert(p[1] == raw[1]);
        assert(is_table(p) == is_table(raw));
        if is_table(raw) && !fence {
            lemma_lines_skip(raw, 2);
            assert(p.skip(2) =~= raw.skip(2).take(k - 2));
            lemma_rows_prefix(raw.skip(2), k - 2);
        }
    }
}

/// What some lines draw is what those before a seam draw, over what those after it draw.
proof fn lemma_compose(raw: Seq<Seq<char>>, fence: bool, k: int)
    requires
        are_lines(raw),
        seam(raw, fence, k),
        k <= raw.len(),
    ensures
        draw(raw, fence) == stack(
            draw(raw.take(k), fence),
            draw(raw.skip(k), draw(raw.take(k), fence).fence),
        ),
    decreases raw.len(),
{
    if k <= 0 {
        assert(raw.take(0) =~= seq![]);
        assert(raw.skip(0) =~= raw);
        assert(draw(raw.take(0), fence) == nothing(fence));
        lemma_stack_nothing(draw(raw, fence), fence);
    } else {
        let n = block_len(raw, fence);
        let b = block(raw, fence);
        lemma_block_prefix(raw, fence, k);
        lemma_lines_skip(raw, n);
        lemma_compose(raw.skip(n), b.fence, k - n);
        assert(raw.take(k).skip(n) =~= raw.skip(n).take(k - n));
        assert(raw.skip(n).skip(k - n) =~= raw.skip(k));
        let head = draw(raw.skip(n).take(k - n), b.fence);
        assert(draw(raw.take(k), fence) == stack(b, head));
        lemma_stack_assoc(b, head, draw(raw.skip(k), head.fence));
    }
}

/// A seam stays one when the text is cut at a later seam.
proof fn lemma_seam_take(raw: Seq<Seq<char>>, fence: bool, a: int, b: int)
    requires
        are_lines(raw),
        seam(raw, fence, a),
        seam(raw, fence, b),
        0 <= a <= b <= raw.len(),
    ensures
        seam(raw.take(b), fence, a),
    decreases raw.len(),
{
    if a > 0 {
        let n = block_len(raw, fence);
        lemma_block_prefix(raw, fence, b);
        lemma_lines_skip(raw, n);
        lemma_seam_take(raw.skip(n), block(raw, fence).fence, a - n, b - n);
        assert(raw.take(b).skip(n) =~= raw.skip(n).take(b - n));
    }
}

/// Seams after a seam.
#[verifier::rlimit(40)]
proof fn lemma_seam_after(raw: Seq<Seq<char>>, fence: bool, a: int, j: int)
    requires
        are_lines(raw),
        seam(raw, fence, a),
        0 <= a <= raw.len(),
        j >= 0,
        seam(raw.skip(a), draw(raw.take(a), fence).fence, j),
    ensures
        seam(raw, fence, a + j),
    decreases raw.len(),
{
    if a == 0 {
        assert(raw.skip(0) =~= raw);
        assert(raw.take(0) =~= seq![]);
        assert(draw(raw.take(0), fence) == nothing(fence));
    } else {
        let n = block_len(raw, fence);
        let b = block(raw, fence);
        lemma_block_prefix(raw, fence, a);
        lemma_lines_skip(raw, n);
        assert(raw.take(a).skip(n) =~= raw.skip(n).take(a - n));
        assert(raw.skip(n).skip(a - n) =~= raw.skip(a));
        let head = draw(raw.skip(n).take(a - n), b.fence);
        assert(draw(raw.take(a), fence) == stack(b, head));
        lemma_seam_after(raw.skip(n), b.fence, a - n, j);
        assert(seam(raw.skip(n), b.fence, a - n + j));
    }
}

// ---- streams ----------------------------------------------------------------

/// Everything that some pieces say, one after another.
pub open spec fn all_said(pieces: Seq<Seq<char>>) -> Seq<char>
    decreases pieces.len(),
{
    if pieces.len() == 0 {
        seq![]
    } else {
        pieces[0] + all_said(pieces.skip(1))
    }
}

/// What is on screen once some pieces have been fed one by one and the answer finished.
pub open spec fn streamed(s: Stream, screen: Drawn, pieces: Seq<Seq<char>>) -> Drawn
    decreases pieces.len(),
{
    if pieces.len() == 0 {
        patched(screen, s.rows, repainted(s, true))
    } else {
        let told = say(s, pieces[0]);
        streamed(
            repaint_of(told, false),
            patched(screen, s.rows, repainted(told, false)),
            pieces.skip(1),
        )
    }
}

/// Whether one block ends and the next begins after the first `n` characters of `text`.
pub open spec fn seam_at(text: Seq<char>, n: int) -> bool {
    seam(raw_lines(text), false, raw_lines(text.take(n)).len() as int)
}

/// A stream that has got part of the way through `text`, with the right things on screen.
spec fn on_course(s: Stream, screen: Drawn, text: Seq<char>) -> bool {
    let done = draw_text(text.take(s.settled), false);
    &&& 0 <= s.settled <= s.said.len() <= text.len()
    &&& text.take(s.said.len() as int) == s.said
    &&& s.settled == 0 || text[s.settled - 1] == '\n'
    &&& seam_at(text, s.settled)
    &&& s.rows == done.rows.len()
    &&& s.fence == done.fence
    &&& screen == stack(done, draw_text(unsettled(s), done.fence))
}

/// How the lines of a text divide at the end of one of them.
proof fn lemma_cut(text: Seq<char>, n: int)
    requires
        0 <= n <= text.len(),
        n == 0 || text[n - 1] == '\n',
    ensures
        ({
            let k = raw_lines(text.take(n)).len() as int;
            &&& k <= raw_lines(text).len()
            &&& raw_lines(text.take(n)) == raw_lines(text).take(k)
            &&& raw_lines(text.skip(n)) == raw_lines(text).skip(k)
            &&& are_lines(raw_lines(text))
        }),
{
    let a = text.take(n);
    let b = text.skip(n);
    assert(a + b =~= text);
    if n > 0 {
        assert(a.last() == text[n - 1]);
    }
    lemma_raw_lines_concat(a, b);
    let k = raw_lines(a).len() as int;
    assert(raw_lines(text).take(k) =~= raw_lines(a));
    assert(raw_lines(text).skip(k) =~= raw_lines(b));
    lemma_raw_lines(text);
}

/// What a text draws up to a seam, and after it.
proof fn lemma_compose_text(text: Seq<char>, n: int)
    requires
        0 <= n <= text.len(),
        n == 0 || text[n - 1] == '\n',
        seam_at(text, n),
    ensures
        draw_text(text, false) == stack(
            draw_text(text.take(n), false),
            draw_text(text.skip(n), draw_text(text.take(n), false).fence),
        ),
{
    lemma_cut(text, n);
    lemma_compose(raw_lines(text), false, raw_lines(text.take(n)).len() as int);
}

#[verifier::rlimit(60)]
proof fn lemma_step(s: Stream, screen: Drawn, piece: Seq<char>, text: Seq<char>)
    requires
        on_course(s, screen, text),
        s.said.len() + piece.len() <= text.len(),
        text.subrange(s.said.len() as int, s.said.len() as int + piece.len()) == piece,
        seam_at(text, repaint_of(say(s, piece), false).settled),
    ensures
        on_course(
            repaint_of(say(s, piece), false),
            patched(screen, s.rows, repainted(say(s, piece), false)),
            text,
        ),
{
    let told = say(s, piece);
    let next = repaint_of(told, false);
    let tail = unsettled(told);
    let n = settling(told, false);
    let b = s.settled;
    let c = next.settled;
    let done = draw_text(text.take(b), false);
    assert(text.take(told.said.len() as int) =~= told.said);
    lemma_settled(tail, s.fence);
    assert(tail =~= text.subrange(b, told.said.len() as int));
    if n > 0 {
        assert(tail[n - 1] == text[c - 1]);
    }
    // The part that settles now ends at a seam, so it is drawn as it is in the whole text.
    let upto = text.take(c);
    lemma_cut(text, b);
    lemma_cut(text, c);
    let kb = raw_lines(text.take(b)).len() as int;
    let kc = raw_lines(upto).len() as int;
    assert(upto.take(b) =~= text.take(b));
    if b > 0 {
        assert(upto[b - 1] == '\n');
    }
    lemma_cut(upto, b);
    lemma_seam_take(raw_lines(text), false, kb, kc);
    lemma_compose_text(upto, b);
    let part = settled_part(told, false);
    assert(tail.take(n) =~= upto.skip(b));
    assert(draw_text(upto, false) == stack(done, part));
    // Replacing what was below the settled rows leaves them alone.
    marks_lie_on_their_rows(raw_lines(text.take(b)), false);
    marks_lie_on_their_rows(raw_lines(unsettled(s)), done.fence);
    lemma_patch_below(done, draw_text(unsettled(s), done.fence), repainted(told, false));
    let rest = draw_text(tail.skip(n), part.fence);
    lemma_stack_assoc(done, part, rest);
    assert(unsettled(next) =~= tail.skip(n));
}

/// Finishing an answer that is on course draws the whole of it.
proof fn lemma_over(s: Stream, screen: Drawn, text: Seq<char>)
    requires
        on_course(s, screen, text),
        s.said == text,
    ensures
        patched(screen, s.rows, repainted(s, true)) == draw_text(text, false),
{
    let done = draw_text(text.take(s.settled), false);
    let t = unsettled(s);
    assert(t =~= text.skip(s.settled));
    assert(t.take(t.len() as int) =~= t);
    assert(t.skip(t.len() as int) =~= seq![]);
    let last = settled_part(s, true);
    assert(raw_lines(Seq::<char>::empty()) =~= seq![]);
    assert(draw(seq![], last.fence) == nothing(last.fence));
    lemma_stack_nothing(last, last.fence);
    assert(repainted(s, true) == last);
    marks_lie_on_their_rows(raw_lines(text.take(s.settled)), false);
    marks_lie_on_their_rows(raw_lines(t), done.fence);
    lemma_patch_below(done, draw_text(t, done.fence), last);
    lemma_compose_text(text, s.settled);
}

proof fn lemma_streamed(s: Stream, screen: Drawn, pieces: Seq<Seq<char>>, text: Seq<char>)
    requires
        on_course(s, screen, text),
        s.said + all_said(pieces) == text,
    ensures
        streamed(s, screen, pieces) == draw_text(text, false),
    decreases pieces.len(),
{
    if pieces.len() == 0 {
        assert(s.said =~= text);
        lemma_over(s, screen, text);
    } else {
        let p = pieces[0];
        let more = all_said(pieces.skip(1));
        assert(text == s.said + (p + more));
        assert(text.subrange(s.said.len() as int, s.said.len() as int + p.len()) =~= p);
        let told = say(s, p);
        assert(told.said + more =~= text);
        assert(text.take(told.said.len() as int) =~= told.said);
        lemma_next_seam(s, screen, p, text);
        lemma_step(s, screen, p, text);
        let next = repaint_of(told, false);
        assert(next.said == told.said);
        lemma_streamed(
            next,
            patched(screen, s.rows, repainted(told, false)),
            pieces.skip(1),
            text,
        );
    }
}

/// An empty screen.
pub open spec fn blank_screen() -> Drawn {
    nothing(false)
}

proof fn lemma_start(text: Seq<char>)
    ensures
        on_course(unsaid(), blank_screen(), text),
{
    let s = unsaid();
    assert(text.take(0) =~= seq![]);
    assert(unsettled(s) =~= seq![]);
    assert(raw_lines(Seq::<char>::empty()) =~= seq![]);
    assert(draw(seq![], false) == nothing(false));
    lemma_stack_nothing(nothing(false), false);
}

// ---- what has settled -------------------------------------------------------

pub proof fn lemma_cells_not_blank(line: Seq<char>)
    requires
        cells_of(line) is Some,
    ensures
        !is_blank(bare(line)),
{
    lemma_trim_blank(bare(line));
    assert(trim_of(bare(line)).len() > 0);
}

/// A table that ends among some whole lines ends there whatever comes after them.
proof fn lemma_rows_end(raw: Seq<Seq<char>>, j: int)
    requires
        0 <= j <= raw.len(),
        forall|i: int| 0 <= i < j ==> is_whole(#[trigger] raw[i]),
        table_rows(raw.take(j)).len() < j,
    ensures
        table_rows(raw) == table_rows(raw.take(j)),
    decreases j,
{
    let p = raw.take(j);
    assert(p[0] == raw[0]);
    assert(is_whole(raw[0]));
    if cells_of(raw[0]) is Some {
        let tail = raw.skip(1);
        assert(p.skip(1) =~= tail.take(j - 1));
        assert(table_rows(p) == seq![cells_of(raw[0])->0] + table_rows(p.skip(1)));
        assert forall|i: int| 0 <= i < j - 1 implies is_whole(#[trigger] tail[i]) by {
            assert(tail[i] == raw[i + 1]);
        }
        lemma_rows_end(tail, j - 1);
    }
}

/// A block that ends before the last of some whole lines ends there whatever comes after them.
proof fn lemma_block_end(raw: Seq<Seq<char>>, fence: bool, k: int)
    requires
        0 < k <= raw.len(),
        forall|i: int| 0 <= i < k ==> is_whole(#[trigger] raw[i]),
        1 <= block_len(raw.take(k), fence) < k,
    ensures
        block_len(raw, fence) == block_len(raw.take(k), fence),
        block(raw, fence) == block(raw.take(k), fence),
{
    let p = raw.take(k);
    assert(p[0] == raw[0]);
    assert(p[1] == raw[1]);
    assert(is_table(p) == is_table(raw));
    if !fence && is_table(raw) {
        assert(p.skip(2) =~= raw.skip(2).take(k - 2));
        assert forall|i: int| 0 <= i < k - 2 implies is_whole(#[trigger] raw.skip(2)[i]) by {
            assert(raw.skip(2)[i] == raw[i + 2]);
        }
        lemma_rows_end(raw.skip(2), k - 2);
    }
}

/// Lines that have settled are whole blocks of every text that begins with them, and have settled
/// there too.
proof fn lemma_settled_for_good(a: Seq<Seq<char>>, b: Seq<Seq<char>>, fence: bool)
    requires
        are_lines(a),
        settled_lines(a, fence) <= b.len(),
        a.take(settled_lines(a, fence)) == b.take(settled_lines(a, fence)),
    ensures
        seam(b, fence, settled_lines(a, fence)),
        settled_lines(a, fence) <= settled_lines(b, fence),
    decreases a.len(),
{
    let k = settled_lines(a, fence);
    lemma_settled_lines(a, fence);
    lemma_settled_lines(b, fence);
    if k > 0 {
        lemma_block_len(a, fence);
        let n = block_len(a, fence);
        let f = block(a, fence).fence;
        let rest = settled_lines(a.skip(n), f);
        assert forall|i: int| 0 <= i < k implies #[trigger] b[i] == a[i] && is_whole(b[i]) by {
            assert(a.take(k)[i] == a[i]);
            assert(b.take(k)[i] == b[i]);
            if i < a.len() - 1 {
                assert(is_whole(a[i]));
            }
        }
        lemma_lines_skip(a, n);
        lemma_settled_lines(a.skip(n), f);
        if rest > 0 {
            lemma_block_prefix(a, fence, k);
            lemma_block_end(b, fence, k);
            assert(a.skip(n).take(rest) =~= a.take(k).skip(n));
            assert(b.skip(n).take(rest) =~= b.take(k).skip(n));
            lemma_settled_for_good(a.skip(n), b.skip(n), f);
            assert(seam(b, fence, k));
        } else {
            assert(b[0] == a[0]);
            if !fence && cells_of(b[0]) is Some {
                lemma_cells_not_blank(b[0]);
            }
            lemma_settled_lines(b.skip(1), block(b, fence).fence);
            assert(seam(b.skip(1), block(b, fence).fence, 0));
        }
    }
}

/// No fence is open after lines that have settled.
proof fn lemma_settled_closed(raw: Seq<Seq<char>>, fence: bool)
    requires
        are_lines(raw),
    ensures
        settled_lines(raw, fence) > 0 ==> !draw(raw.take(settled_lines(raw, fence)), fence).fence,
    decreases raw.len(),
{
    let k = settled_lines(raw, fence);
    lemma_settled_lines(raw, fence);
    if k > 0 {
        lemma_block_len(raw, fence);
        let n = block_len(raw, fence);
        let f = block(raw, fence).fence;
        let rest = settled_lines(raw.skip(n), f);
        let p = raw.take(k);
        lemma_lines_skip(raw, n);
        lemma_settled_lines(raw.skip(n), f);
        lemma_block_prefix(raw, fence, k);
        assert(p.skip(n) =~= raw.skip(n).take(k - n));
        if rest > 0 {
            lemma_settled_closed(raw.skip(n), f);
        } else {
            assert(p.skip(1) =~= seq![]);
            assert(draw(p.skip(1), f) == nothing(f));
        }
    }
}

/// What has settled of the beginning of a text is among the lines of the whole text.
proof fn lemma_settled_prefix(text: Seq<char>, n: int, fence: bool)
    requires
        0 <= n <= text.len(),
    ensures
        ({
            let ls = raw_lines(text.take(n));
            let k = settled_lines(ls, fence);
            &&& 0 <= k <= ls.len()
            &&& k <= raw_lines(text).len()
            &&& ls.take(k) == raw_lines(text).take(k)
            &&& seam(raw_lines(text), fence, k)
            &&& k <= settled_lines(raw_lines(text), fence)
        }),
{
    let m = lemma_prefix_lines(text, n);
    let ls = raw_lines(text.take(n));
    let lt = raw_lines(text);
    let k = settled_lines(ls, fence);
    lemma_raw_lines(text.take(n));
    lemma_settled_lines(ls, fence);
    if ls == lt.take(m) {
        assert(ls.len() == m);
        assert(ls.take(k) =~= lt.take(k));
    } else {
        let whole = ls.drop_last();
        assert(whole == lt.take(m));
        assert(whole.len() == m);
        if k == ls.len() {
            assert(ls[k - 1] == ls.last());
        }
        assert(k <= m);
        assert(ls.take(k) =~= whole.take(k));
        assert(whole.take(k) =~= lt.take(k));
    }
    lemma_settled_for_good(ls, lt, fence);
}

/// What a text has settled of its own is drawn above whatever follows it.
proof fn lemma_settled_text(a: Seq<char>, b: Seq<char>)
    ensures
        seam_at(a + b, settled_chars(a, false)),
        !draw_text(a.take(settled_chars(a, false)), false).fence,
{
    let text = a + b;
    let c = settled_chars(a, false);
    let la = raw_lines(a);
    let k = settled_lines(la, false);
    assert(text.take(a.len() as int) =~= a);
    lemma_settled_prefix(text, a.len() as int, false);
    lemma_settled(a, false);
    assert(text.take(c) =~= a.take(c));
    assert(raw_lines(text.take(c)).len() == k);
    lemma_raw_lines(a);
    lemma_settled_closed(la, false);
    if k == 0 {
        assert(la.take(0) =~= seq![]);
        assert(draw(seq![], false) == nothing(false));
    }
}

/// The lines of the beginning of a text: those of the whole, but for one that is only begun.
proof fn lemma_prefix_lines(text: Seq<char>, n: int) -> (m: int)
    requires
        0 <= n <= text.len(),
    ensures
        0 <= m <= raw_lines(text).len(),
        raw_lines(text.take(n)) == raw_lines(text).take(m) || ({
            let p = raw_lines(text.take(n));
            p.len() > 0 && !is_whole(p.last()) && p.drop_last() == raw_lines(text).take(m)
        }),
    decreases text.len(),
{
    let p = text.take(n);
    if n == 0 {
        assert(p =~= seq![]);
        assert(raw_lines(text).take(0) =~= raw_lines(p));
        0
    } else {
        crate::text::lemma_position_found(text, '\n');
        let i = crate::text::position_of(text, '\n');
        if i < n {
            assert forall|j: int| 0 <= j < i implies #[trigger] p[j] != '\n' by {
                assert(text[j] != '\n');
            }
            crate::text::lemma_position(p, '\n', i);
            let m = lemma_prefix_lines(text.skip(i + 1), n - i - 1);
            assert(text.skip(i + 1).take(n - i - 1) =~= p.skip(i + 1));
            assert(p.take(i + 1) =~= text.take(i + 1));
            let head = seq![text.take(i + 1)];
            assert(raw_lines(text) == head + raw_lines(text.skip(i + 1)));
            assert(raw_lines(p) == head + raw_lines(p.skip(i + 1)));
            assert(raw_lines(text).take(m + 1) =~= head + raw_lines(text.skip(i + 1)).take(m));
            if raw_lines(p.skip(i + 1)) == raw_lines(text.skip(i + 1)).take(m) {
                assert(raw_lines(p) =~= raw_lines(text).take(m + 1));
            } else {
                let q = raw_lines(p.skip(i + 1));
                assert(raw_lines(p).last() == q.last());
                assert(raw_lines(p).drop_last() =~= head + q.drop_last());
            }
            m + 1
        } else {
            assert forall|j: int| 0 <= j < n implies #[trigger] p[j] != '\n' by {
                assert(text[j] != '\n');
            }
            crate::text::lemma_position(p, '\n', n);
            assert(raw_lines(p) =~= seq![p]);
            assert(p.last() == p[n - 1]);
            assert(raw_lines(p).drop_last() =~= raw_lines(text).take(0));
            0
        }
    }
}

/// The next point to settle at is a seam of the whole text.
proof fn lemma_next_seam(s: Stream, screen: Drawn, piece: Seq<char>, text: Seq<char>)
    requires
        on_course(s, screen, text),
        s.said.len() + piece.len() <= text.len(),
        text.take(s.said.len() as int + piece.len()) == s.said + piece,
    ensures
        seam_at(text, repaint_of(say(s, piece), false).settled),
{
    let told = say(s, piece);
    let b = s.settled;
    let tail = unsettled(told);
    let whole = text.skip(b);
    let n = tail.len() as int;
    assert(whole.take(n) =~= tail);
    lemma_cut(text, b);
    let kb = raw_lines(text.take(b)).len() as int;
    let k = settled_lines(raw_lines(tail), s.fence);
    lemma_settled_prefix(whole, n, s.fence);
    lemma_settled(tail, s.fence);
    lemma_seam_after(raw_lines(text), false, kb, k);
    lemma_lines_added(text, b, tail, settled_chars(tail, s.fence));
}

proof fn lemma_lines_added(text: Seq<char>, b: int, tail: Seq<char>, d: int)
    requires
        0 <= b <= text.len(),
        b == 0 || text[b - 1] == '\n',
        b + tail.len() <= text.len(),
        text.skip(b).take(tail.len() as int) == tail,
        0 <= d <= tail.len(),
    ensures
        raw_lines(text.take(b + d)).len() == raw_lines(text.take(b)).len() + raw_lines(
            tail.take(d),
        ).len(),
{
    assert(text.take(b + d) =~= text.take(b) + tail.take(d));
    if b > 0 {
        assert(text.take(b).last() == text[b - 1]);
    }
    lemma_raw_lines_concat(text.take(b), tail.take(d));
}

/// Rendering a text in one go draws its blocks one under another, and nothing else.
pub proof fn one_shot_draws_the_whole_text(text: Seq<char>)
    ensures
        rendered(text) == draw_text(text, false),
{
    let none: Seq<char> = seq![];
    lemma_settled_text(text, none);
    assert(text + none =~= text);
    let told = say(unsaid(), text);
    assert(told.said =~= text);
    assert(unsettled(told) =~= text);
    lemma_settled(text, false);
    lemma_compose_text(text, settling(told, false));
}

/// A stored message looks the same as a streamed one: however an answer is cut into pieces,
/// streaming it ends up where rendering it in one go does, rows and marks.
pub proof fn a_stream_ends_up_where_one_shot_does(pieces: Seq<Seq<char>>)
    ensures
        streamed(unsaid(), blank_screen(), pieces) == draw_text(all_said(pieces), false),
        streamed(unsaid(), blank_screen(), pieces) == rendered(all_said(pieces)),
{
    let text = all_said(pieces);
    lemma_start(text);
    assert(unsaid().said + text =~= text);
    lemma_streamed(unsaid(), blank_screen(), pieces, text);
    one_shot_draws_the_whole_text(text);
}

/// What is on screen once some pieces have been fed one by one and the answer is not over.
pub open spec fn so_far(s: Stream, screen: Drawn, pieces: Seq<Seq<char>>) -> Drawn
    decreases pieces.len(),
{
    if pieces.len() == 0 {
        screen
    } else {
        let told = say(s, pieces[0]);
        so_far(
            repaint_of(told, false),
            patched(screen, s.rows, repainted(told, false)),
            pieces.skip(1),
        )
    }
}

proof fn lemma_so_far(s: Stream, screen: Drawn, pieces: Seq<Seq<char>>, text: Seq<char>)
    requires
        on_course(s, screen, text),
        s.said + all_said(pieces) == text,
    ensures
        so_far(s, screen, pieces) == draw_text(text, false),
    decreases pieces.len(),
{
    if pieces.len() == 0 {
        assert(s.said =~= text);
        assert(unsettled(s) =~= text.skip(s.settled));
        lemma_compose_text(text, s.settled);
    } else {
        let p = pieces[0];
        let more = all_said(pieces.skip(1));
        assert(text == s.said + (p + more));
        assert(text.subrange(s.said.len() as int, s.said.len() as int + p.len()) =~= p);
        let told = say(s, p);
        assert(told.said + more =~= text);
        assert(text.take(told.said.len() as int) =~= told.said);
        lemma_next_seam(s, screen, p, text);
        lemma_step(s, screen, p, text);
        lemma_so_far(
            repaint_of(told, false),
            patched(screen, s.rows, repainted(told, false)),
            pieces.skip(1),
            text,
        );
    }
}

/// The whole of an answer looks right after every piece of it: whatever has been fed so far, and
/// however it was cut, the screen shows what rendering it in one go would.
pub proof fn the_screen_is_right_after_every_piece(pieces: Seq<Seq<char>>, n: int)
    requires
        0 <= n <= pieces.len(),
    ensures
        so_far(unsaid(), blank_screen(), pieces.take(n)) == rendered(all_said(pieces.take(n))),
{
    let text = all_said(pieces.take(n));
    lemma_start(text);
    assert(unsaid().said + text =~= text);
    lemma_so_far(unsaid(), blank_screen(), pieces.take(n), text);
    one_shot_draws_the_whole_text(text);
}

/// Finished blocks are drawn the same whatever follows them, and what follows them is drawn as if it
/// stood alone: the two drawings, one under the other, are the drawing of both.
pub proof fn finished_blocks_stand_alone(finished: Seq<char>, more: Seq<char>)
    requires
        settled_chars(finished, false) == finished.len(),
    ensures
        rendered(finished + more) == stack(rendered(finished), rendered(more)),
{
    let text = finished + more;
    let n = finished.len() as int;
    lemma_settled_text(finished, more);
    lemma_settled(finished, false);
    assert(finished.take(n) =~= finished);
    assert(text.take(n) =~= finished);
    assert(text.skip(n) =~= more);
    if n > 0 {
        assert(text[n - 1] == finished[n - 1]);
    }
    lemma_compose_text(text, n);
    one_shot_draws_the_whole_text(text);
    one_shot_draws_the_whole_text(finished);
    one_shot_draws_the_whole_text(more);
}

/// A block that cannot change stays one: however a text goes on, no less of it has settled. That
/// holds of a text that starts inside a fence as well.
pub proof fn what_has_settled_stays_settled(text: Seq<char>, more: Seq<char>, fence: bool)
    ensures
        0 <= settled_chars(text, fence) <= settled_chars(text + more, fence) <= text.len()
            + more.len(),
{
    let whole = text + more;
    assert(whole.take(text.len() as int) =~= text);
    lemma_settled_prefix(whole, text.len() as int, fence);
    lemma_settled(text, fence);
    lemma_settled(whole, fence);
    let lt = raw_lines(whole);
    let k = settled_lines(raw_lines(text), fence);
    let kt = settled_lines(lt, fence);
    assert(lt.take(kt) =~= lt.take(k) + lt.take(kt).skip(k));
    lemma_joined_concat(lt.take(k), lt.take(kt).skip(k));
}

/// A heading is settled with its newline, unless a bar in it could still make it the header of a
/// table.
pub proof fn a_heading_settles_with_its_newline(title: Seq<char>)
    requires
        is_whole(title),
        raw_lines(title) == seq![title],
        is_heading(bare(title)),
        !is_fence(bare(title)),
        cells_of(title) is None,
    ensures
        settled_chars(title, false) == title.len(),
{
    let ls = raw_lines(title);
    lemma_raw_lines(title);
    assert(ls.skip(1) =~= seq![]);
    assert(settled_lines(ls.skip(1), block(ls, false).fence) == 0);
    assert(ls.take(1) =~= ls);
}

/// Rows that have settled are never touched again: the patch that comes next replaces rows below
/// them only, and what has settled only grows.
pub proof fn settled_rows_stay(s: Stream, screen: Drawn, text: Seq<char>, complete: bool)
    requires
        0 <= s.rows <= screen.rows.len(),
        0 <= s.settled <= s.said.len(),
    ensures
        repaint_of(say(s, text), complete).rows >= s.rows,
        repaint_of(say(s, text), complete).settled >= s.settled,
        patched(screen, s.rows, repainted(say(s, text), complete)).rows.take(s.rows)
            == screen.rows.take(s.rows),
{
    let p = patched(screen, s.rows, repainted(say(s, text), complete));
    lemma_settled(unsettled(say(s, text)), s.fence);
    assert(p.rows.take(s.rows) =~= screen.rows.take(s.rows));
}

/// An answer that has been finished stays finished: finishing it again replaces nothing by
/// nothing, and changes nothing.
pub proof fn a_finished_answer_stays_settled(s: Stream)
    requires
        0 <= s.settled <= s.said.len(),
    ensures
        repainted(repaint_of(s, true), true).rows.len() == 0,
        repainted(repaint_of(s, true), true).marks.len() == 0,
        repaint_of(repaint_of(s, true), true) == repaint_of(s, true),
{
    let next = repaint_of(s, true);
    let t = unsettled(next);
    assert(t =~= seq![]);
    assert(t.take(0) =~= seq![]);
    assert(t.skip(0) =~= seq![]);
    assert(raw_lines(Seq::<char>::empty()) =~= seq![]);
    assert(draw(seq![], next.fence) == nothing(next.fence));
    lemma_stack_nothing(nothing(next.fence), next.fence);
}

} // verus!
