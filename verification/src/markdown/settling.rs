//! What settles: a paragraph followed by a blank line, and a fence with its closing back-ticks.

use crate::markdown::bounds::{lemma_block_len, lemma_lines_skip, lemma_table_rows};
use crate::markdown::laws::{lemma_block_prefix, lemma_cells_not_blank, seam};
use crate::markdown::lines::are_lines;
use crate::markdown::model::{
    bare, block, block_len, cells_of, draw, is_fence, is_table, is_whole, nothing, settled_lines,
    stack,
};
use crate::text::is_blank;
use vstd::prelude::*;

verus! {

/// A blank line outside a fence settles everything up to and with it.
pub proof fn a_blank_line_settles_what_is_above_it(ls: Seq<Seq<char>>, fence: bool)
    requires
        are_lines(ls),
        ls.len() > 0,
        is_whole(ls.last()),
        is_blank(bare(ls.last())),
        !is_fence(bare(ls.last())),
        !draw(ls.drop_last(), fence).fence,
    ensures
        settled_lines(ls, fence) == ls.len(),
    decreases ls.len(),
{
    let m = ls.len() - 1;
    let less = ls.drop_last();
    assert(less =~= ls.take(m));
    lemma_block_len(ls, fence);
    let n = block_len(ls, fence);
    if m == 0 {
        assert(less =~= seq![]);
        assert(draw(less, fence) == nothing(fence));
        assert(ls.skip(1) =~= seq![]);
        assert(settled_lines(ls.skip(1), block(ls, fence).fence) == 0);
        assert(ls[0] == ls.last());
    } else {
        assert(n <= m) by {
            if !fence && is_table(ls) {
                lemma_lines_skip(ls, 2);
                lemma_table_rows(ls.skip(2));
                if n == ls.len() {
                    if n == 2 {
                        assert(ls[1] == ls.last());
                    } else {
                        assert(ls.skip(2)[n - 3] == ls.last());
                        assert(cells_of(ls.skip(2)[n - 3]) is Some);
                    }
                    lemma_cells_not_blank(ls.last());
                }
            }
        }
        let f = block(ls, fence).fence;
        lemma_block_prefix(ls, fence, m);
        lemma_lines_skip(ls, n);
        let rest = ls.skip(n);
        assert(rest.drop_last() =~= less.skip(n));
        assert(draw(less, fence) == stack(block(ls, fence), draw(less.skip(n), f)));
        assert(rest.last() == ls.last());
        a_blank_line_settles_what_is_above_it(rest, f);
    }
}

/// The marker that closes a fence settles everything up to and with it.
pub proof fn a_closing_fence_settles_what_is_above_it(ls: Seq<Seq<char>>, fence: bool)
    requires
        are_lines(ls),
        ls.len() > 0,
        is_whole(ls.last()),
        is_fence(bare(ls.last())),
        seam(ls, fence, ls.len() - 1),
        draw(ls.drop_last(), fence).fence,
    ensures
        settled_lines(ls, fence) == ls.len(),
    decreases ls.len(),
{
    let m = ls.len() - 1;
    let less = ls.drop_last();
    assert(less =~= ls.take(m));
    if m == 0 {
        assert(less =~= seq![]);
        assert(draw(less, fence) == nothing(fence));
        assert(ls.skip(1) =~= seq![]);
        assert(settled_lines(ls.skip(1), block(ls, fence).fence) == 0);
        assert(ls[0] == ls.last());
    } else {
        let n = block_len(ls, fence);
        let f = block(ls, fence).fence;
        lemma_block_prefix(ls, fence, m);
        lemma_lines_skip(ls, n);
        let rest = ls.skip(n);
        assert(rest.drop_last() =~= less.skip(n));
        assert(draw(less, fence) == stack(block(ls, fence), draw(less.skip(n), f)));
        assert(rest.last() == ls.last());
        a_closing_fence_settles_what_is_above_it(rest, f);
    }
}

} // verus!
