//! What a search of the transcript comes to, whatever is looked for.

use crate::host::search::{
    all_hits, first_hits, hits_from, landing, looked_at, looked_for, match_from, minds_case,
    next_match, row_after, row_hits, Hit,
};
use crate::host::search::{is_capital, lowercase_of};
use crate::markdown::promises::is_at;
use crate::text::{found_from, lemma_bytes_concat, lemma_found_from, width_in_bytes};
use vstd::prelude::*;

verus! {

/// Whether some columns come from left to right.
pub open spec fn left_to_right(cols: Seq<int>) -> bool {
    forall|i: int, j: int| 0 <= i < j < cols.len() ==> #[trigger] cols[i] < #[trigger] cols[j]
}

/// Forwards, a search lands on the leftmost column to the right of where it starts, or on the one
/// under the cursor where that counts; on any other row it lands on the leftmost of all. It finds
/// nothing only where there is none.
pub proof fn forwards_is_the_nearest_on_the_right(cols: Seq<int>, here: int, here_too: bool)
    requires
        left_to_right(cols),
    ensures
        match landing(cols, true, here, true, here_too) {
            Some(c) => {
                &&& cols.contains(c)
                &&& here < c || (here_too && c == here)
                &&& forall|d: int| #[trigger]
                    cols.contains(d) && (here < d || (here_too && d == here)) ==> c <= d
            },
            None => forall|d: int| #[trigger]
                cols.contains(d) ==> d < here || (!here_too && d == here),
        },
        match landing(cols, false, here, true, here_too) {
            Some(c) => cols.contains(c) && forall|d: int| #[trigger] cols.contains(d) ==> c <= d,
            None => cols.len() == 0,
        },
    decreases cols.len(),
{
    if cols.len() > 0 {
        let rest = cols.skip(1);
        assert forall|i: int, j: int| 0 <= i < j < rest.len() implies #[trigger] rest[i]
            < #[trigger] rest[j] by {
            assert(cols[i + 1] < cols[j + 1]);
        }
        forwards_is_the_nearest_on_the_right(rest, here, here_too);
        assert(cols.contains(cols[0]));
        assert forall|d: int| #[trigger] cols.contains(d) implies d == cols[0] || (rest.contains(d)
            && cols[0] < d) by {
            let k = choose|k: int| 0 <= k < cols.len() && cols[k] == d;
            if k > 0 {
                assert(rest[k - 1] == d);
                assert(cols[0] < cols[k]);
            }
        }
        assert forall|d: int| #[trigger] rest.contains(d) implies cols.contains(d) by {
            let k = choose|k: int| 0 <= k < rest.len() && rest[k] == d;
            assert(cols[k + 1] == d);
        }
    }
}

/// Backwards, a search lands on the rightmost column to the left of where it starts, or on the one
/// under the cursor where that counts; on any other row it lands on the rightmost of all. It finds
/// nothing only where there is none.
pub proof fn backwards_is_the_nearest_on_the_left(cols: Seq<int>, here: int, here_too: bool)
    requires
        left_to_right(cols),
    ensures
        match landing(cols, true, here, false, here_too) {
            Some(c) => {
                &&& cols.contains(c)
                &&& c < here || (here_too && c == here)
                &&& forall|d: int| #[trigger]
                    cols.contains(d) && (d < here || (here_too && d == here)) ==> d <= c
            },
            None => forall|d: int| #[trigger]
                cols.contains(d) ==> here < d || (!here_too && d == here),
        },
        match landing(cols, false, here, false, here_too) {
            Some(c) => cols.contains(c) && forall|d: int| #[trigger] cols.contains(d) ==> d <= c,
            None => cols.len() == 0,
        },
    decreases cols.len(),
{
    if cols.len() > 0 {
        let rest = cols.drop_last();
        assert forall|i: int, j: int| 0 <= i < j < rest.len() implies #[trigger] rest[i]
            < #[trigger] rest[j] by {
            assert(cols[i] < cols[j]);
        }
        backwards_is_the_nearest_on_the_left(rest, here, here_too);
        assert(cols.contains(cols[cols.len() - 1]));
        assert forall|d: int| #[trigger] cols.contains(d) implies d == cols.last() || (rest.contains(
            d,
        ) && d < cols.last()) by {
            let k = choose|k: int| 0 <= k < cols.len() && cols[k] == d;
            if k < cols.len() - 1 {
                assert(rest[k] == d);
                assert(cols[k] < cols[cols.len() - 1]);
            }
        }
        assert forall|d: int| #[trigger] rest.contains(d) implies cols.contains(d) by {
            let k = choose|k: int| 0 <= k < rest.len() && rest[k] == d;
            assert(cols[k] == d);
        }
    }
}

/// Whether a column is where something begins in a line, and at which character.
pub open spec fn begins_at(hay: Seq<char>, pat: Seq<char>, col: int, p: int) -> bool {
    &&& 0 <= p
    &&& p + pat.len() <= hay.len()
    &&& is_at(hay, p, pat)
    &&& col == width_in_bytes(hay.take(p))
}

/// Whether a column is where something begins in a line, at some character from a place on.
pub open spec fn stands_from(hay: Seq<char>, pat: Seq<char>, col: int, from: int) -> bool {
    exists|p: int| from <= p && #[trigger] begins_at(hay, pat, col, p)
}

/// Whether a character of a line is covered by what begins at one of some columns.
pub open spec fn is_covered(hay: Seq<char>, pat: Seq<char>, cols: Seq<int>, at: int) -> bool {
    exists|p: int, col: int|
        p <= at < p + pat.len() && cols.contains(col) && #[trigger] begins_at(hay, pat, col, p)
}

proof fn lemma_not_before(s: Seq<char>, from: int, needle: Seq<char>, j: int)
    requires
        0 <= from <= j,
        j + needle.len() <= s.len(),
        is_at(s, j, needle),
    ensures
        found_from(s, from, needle) is Some,
        found_from(s, from, needle)->0 <= j,
    decreases j - from,
{
    if s.subrange(from, from + needle.len()) != needle {
        lemma_not_before(s, from + 1, needle, j);
    }
}

proof fn lemma_take_bytes(s: Seq<char>, i: int, j: int)
    requires
        0 <= i <= j <= s.len(),
    ensures
        width_in_bytes(s.take(j)) == width_in_bytes(s.take(i)) + width_in_bytes(s.subrange(i, j)),
{
    assert(s.take(j) =~= s.take(i) + s.subrange(i, j));
    lemma_bytes_concat(s.take(i), s.subrange(i, j));
}

proof fn lemma_some_bytes(s: Seq<char>)
    requires
        s.len() > 0,
    ensures
        width_in_bytes(s) > 0,
{
    vstd::utf8::encode_utf8_first_scalar(s);
}

proof fn lemma_hits(hay: Seq<char>, pat: Seq<char>, from: int)
    requires
        pat.len() > 0,
        0 <= from <= hay.len(),
    ensures
        ({
            let cols = hits_from(hay, pat, from);
            &&& forall|k: int| 0 <= k < cols.len() ==> stands_from(
                hay,
                pat,
                #[trigger] cols[k],
                from,
            )
            &&& forall|k: int|
                0 <= k < cols.len() ==> width_in_bytes(hay.take(from)) <= #[trigger] cols[k]
            &&& forall|i: int, j: int|
                0 <= i < j < cols.len() ==> #[trigger] cols[i] + width_in_bytes(pat)
                    <= #[trigger] cols[j]
            &&& forall|at: int|
                from <= at && at + pat.len() <= hay.len() && #[trigger] is_at(hay, at, pat) ==> is_covered(
                    hay,
                    pat,
                    cols,
                    at,
                )
        }),
    decreases hay.len() - from,
{
    let cols = hits_from(hay, pat, from);
    lemma_found_from(hay, from, pat);
    match found_from(hay, from, pat) {
        Some(i) => {
            let next = i + pat.len();
            let first = width_in_bytes(hay.take(i)) as int;
            let rest = hits_from(hay, pat, next);
            assert(cols == seq![first] + rest);
            lemma_hits(hay, pat, next);
            lemma_take_bytes(hay, from, i);
            lemma_take_bytes(hay, i, next);
            assert(hay.subrange(i, next) == pat);
            assert forall|k: int| 0 <= k < cols.len() implies stands_from(
                hay,
                pat,
                #[trigger] cols[k],
                from,
            ) by {
                if k == 0 {
                    assert(is_at(hay, i, pat));
                    assert(begins_at(hay, pat, cols[0], i));
                } else {
                    let c = rest[k - 1];
                    assert(stands_from(hay, pat, c, next));
                    let p = choose|p: int| next <= p && #[trigger] begins_at(hay, pat, c, p);
                    assert(cols[k] == c);
                    assert(begins_at(hay, pat, cols[k], p));
                }
            }
            assert forall|k: int| 0 <= k < cols.len() implies width_in_bytes(hay.take(from))
                <= #[trigger] cols[k] by {
                if k > 0 {
                    assert(cols[k] == rest[k - 1]);
                }
            }
            assert forall|a: int, b: int| 0 <= a < b < cols.len() implies #[trigger] cols[a]
                + width_in_bytes(pat) <= #[trigger] cols[b] by {
                assert(cols[b] == rest[b - 1]);
                if a > 0 {
                    assert(cols[a] == rest[a - 1]);
                }
            }
            assert forall|at: int|
                from <= at && at + pat.len() <= hay.len() && #[trigger] is_at(
                    hay,
                    at,
                    pat,
                ) implies is_covered(hay, pat, cols, at) by {
                lemma_not_before(hay, from, pat, at);
                if at < next {
                    assert(cols[0] == first);
                    assert(cols.contains(first));
                    assert(is_at(hay, i, pat));
                    assert(begins_at(hay, pat, first, i));
                } else {
                    assert(is_covered(hay, pat, rest, at));
                    let (p, col) = choose|p: int, col: int|
                        p <= at < p + pat.len() && rest.contains(col) && #[trigger] begins_at(
                            hay,
                            pat,
                            col,
                            p,
                        );
                    let k = choose|k: int| 0 <= k < rest.len() && rest[k] == col;
                    assert(cols[k + 1] == col);
                    assert(cols.contains(col));
                    assert(begins_at(hay, pat, col, p));
                }
            }
        },
        None => {
            assert forall|at: int|
                from <= at && at + pat.len() <= hay.len() && #[trigger] is_at(
                    hay,
                    at,
                    pat,
                ) implies false by {
                lemma_not_before(hay, from, pat, at);
            }
        },
    }
}

/// A line is hit where what is looked for stands in it, from left to right, without one hit lying
/// across another; and wherever what is looked for stands, a hit covers it.
pub proof fn a_line_is_hit_wherever_the_word_stands(hay: Seq<char>, pat: Seq<char>)
    requires
        pat.len() > 0,
    ensures
        ({
            let cols = hits_from(hay, pat, 0);
            &&& left_to_right(cols)
            &&& forall|k: int| 0 <= k < cols.len() ==> stands_from(
                hay,
                pat,
                #[trigger] cols[k],
                0,
            )
            &&& forall|i: int, j: int|
                0 <= i < j < cols.len() ==> #[trigger] cols[i] + width_in_bytes(pat)
                    <= #[trigger] cols[j]
            &&& forall|at: int|
                0 <= at && at + pat.len() <= hay.len() && #[trigger] is_at(hay, at, pat) ==> is_covered(
                    hay,
                    pat,
                    cols,
                    at,
                )
        }),
{
    lemma_hits(hay, pat, 0);
    lemma_some_bytes(pat);
    let cols = hits_from(hay, pat, 0);
    assert forall|i: int, j: int| 0 <= i < j < cols.len() implies #[trigger] cols[i]
        < #[trigger] cols[j] by {
        assert(cols[i] + width_in_bytes(pat) <= cols[j]);
    }
}

/// The row so many rows on from another, going round at the end.
pub open spec fn rows_on(from: int, n: int, step: int, forward: bool) -> int {
    if forward {
        if from + step < n {
            from + step
        } else {
            from + step - n
        }
    } else {
        if step <= from {
            from - step
        } else {
            from - step + n
        }
    }
}

/// A search goes from row to row, down or up, and round at the end.
pub proof fn rows_are_searched_in_turn(from: int, n: int, step: int, forward: bool)
    requires
        0 <= from < n,
        0 <= step <= n,
    ensures
        row_after(from, n, step, forward) == rows_on(from, n, step, forward),
        0 <= row_after(from, n, step, forward) < n,
{
    if forward {
        if from + step < n {
            vstd::arithmetic::div_mod::lemma_small_mod((from + step) as nat, n as nat);
        } else {
            vstd::arithmetic::div_mod::lemma_small_mod((from + step - n) as nat, n as nat);
            vstd::arithmetic::div_mod::lemma_mod_add_multiples_vanish(from + step - n, n);
        }
    } else {
        if step == n {
            vstd::arithmetic::div_mod::lemma_mod_self_0(n);
            vstd::arithmetic::div_mod::lemma_small_mod(from as nat, n as nat);
            vstd::arithmetic::div_mod::lemma_mod_add_multiples_vanish(from, n);
        } else {
            vstd::arithmetic::div_mod::lemma_small_mod(step as nat, n as nat);
            if step <= from {
                vstd::arithmetic::div_mod::lemma_small_mod((from - step) as nat, n as nat);
                vstd::arithmetic::div_mod::lemma_mod_add_multiples_vanish(from - step, n);
            } else {
                vstd::arithmetic::div_mod::lemma_small_mod((from + n - step) as nat, n as nat);
            }
        }
    }
}

/// Whether a column of the row that a search starts on lies onwards.
pub open spec fn lies_onwards(c: int, here: int, forward: bool, here_too: bool) -> bool {
    (forward && here < c) || (!forward && c < here) || (here_too && c == here)
}

/// Whether a place is the one that a search comes to first: nothing lies on the rows between, and
/// on its own row nothing is nearer.
pub open spec fn comes_first(
    hays: Seq<Seq<char>>,
    pat: Seq<char>,
    from: (int, int),
    forward: bool,
    here_too: bool,
    start: int,
    step: int,
    col: int,
) -> bool {
    let n = hays.len() as int;
    let cols = hits_from(hays[rows_on(from.0, n, step, forward)], pat, 0);
    &&& start <= step <= n
    &&& cols.contains(col)
    &&& step == 0 ==> lies_onwards(col, from.1, forward, here_too)
    &&& forall|d: int| #[trigger]
        cols.contains(d) && (step == 0 ==> lies_onwards(d, from.1, forward, here_too)) ==> if forward {
            col <= d
        } else {
            d <= col
        }
    &&& forall|s: int|
        start <= s < step && s > 0 ==> (#[trigger] hits_from(
            hays[rows_on(from.0, n, s, forward)],
            pat,
            0,
        )).len() == 0
    &&& start == 0 && step > 0 ==> forall|d: int| #[trigger]
        hits_from(hays[from.0], pat, 0).contains(d) ==> !lies_onwards(
            d,
            from.1,
            forward,
            here_too,
        )
}

proof fn lemma_nearest(hay: Seq<char>, pat: Seq<char>, starting: bool, here: int, forward: bool, here_too: bool)
    requires
        pat.len() > 0,
    ensures
        match landing(hits_from(hay, pat, 0), starting, here, forward, here_too) {
            Some(c) => {
                &&& hits_from(hay, pat, 0).contains(c)
                &&& starting ==> lies_onwards(c, here, forward, here_too)
                &&& forall|d: int| #[trigger]
                    hits_from(hay, pat, 0).contains(d) && (starting ==> lies_onwards(
                        d,
                        here,
                        forward,
                        here_too,
                    )) ==> if forward {
                        c <= d
                    } else {
                        d <= c
                    }
            },
            None => {
                &&& !starting ==> hits_from(hay, pat, 0).len() == 0
                &&& forall|d: int| #[trigger]
                    hits_from(hay, pat, 0).contains(d) ==> !lies_onwards(
                        d,
                        here,
                        forward,
                        here_too,
                    )
            },
        },
{
    let cols = hits_from(hay, pat, 0);
    a_line_is_hit_wherever_the_word_stands(hay, pat);
    if forward {
        forwards_is_the_nearest_on_the_right(cols, here, here_too);
    } else {
        backwards_is_the_nearest_on_the_left(cols, here, here_too);
    }
}

/// Whether a place is the one that a search comes to first, so many rows on.
pub open spec fn is_the_first(
    hays: Seq<Seq<char>>,
    pat: Seq<char>,
    from: (int, int),
    forward: bool,
    here_too: bool,
    start: int,
    row: int,
    col: int,
) -> bool {
    exists|step: int|
        row == rows_on(from.0, hays.len() as int, step, forward) && #[trigger] comes_first(
            hays,
            pat,
            from,
            forward,
            here_too,
            start,
            step,
            col,
        )
}

proof fn lemma_lands_here(
    hays: Seq<Seq<char>>,
    pat: Seq<char>,
    from: (int, int),
    forward: bool,
    here_too: bool,
    start: int,
)
    requires
        pat.len() > 0,
        0 <= from.0 < hays.len(),
        0 <= start <= hays.len(),
    ensures
        ({
            let row = rows_on(from.0, hays.len() as int, start, forward);
            let cols = hits_from(hays[row], pat, 0);
            &&& row == row_after(from.0, hays.len() as int, start, forward)
            &&& match landing(cols, start == 0, from.1, forward, here_too) {
                Some(c) => comes_first(hays, pat, from, forward, here_too, start, start, c),
                None => if start == 0 {
                    &&& row == from.0
                    &&& forall|d: int| #[trigger]
                        cols.contains(d) ==> !lies_onwards(d, from.1, forward, here_too)
                } else {
                    cols.len() == 0
                },
            }
        }),
{
    let row = rows_on(from.0, hays.len() as int, start, forward);
    rows_are_searched_in_turn(from.0, hays.len() as int, start, forward);
    lemma_nearest(hays[row], pat, start == 0, from.1, forward, here_too);
}

proof fn lemma_first_of_all(
    hays: Seq<Seq<char>>,
    pat: Seq<char>,
    from: (int, int),
    forward: bool,
    here_too: bool,
    start: int,
)
    requires
        pat.len() > 0,
        0 <= from.0 < hays.len(),
        0 <= start <= hays.len() + 1,
    ensures
        match match_from(hays, pat, from, forward, here_too, start) {
            Some((row, col)) => is_the_first(
                hays,
                pat,
                from,
                forward,
                here_too,
                start,
                row,
                col,
            ),
            None => forall|s: int|
                start <= s <= hays.len() && s > 0 ==> (#[trigger] hits_from(
                    hays[rows_on(from.0, hays.len() as int, s, forward)],
                    pat,
                    0,
                )).len() == 0,
        },
    decreases hays.len() + 1 - start,
{
    let n = hays.len() as int;
    if start <= n {
        lemma_lands_here(hays, pat, from, forward, here_too, start);
        let row = rows_on(from.0, n, start, forward);
        let cols = hits_from(hays[row], pat, 0);
        match landing(cols, start == 0, from.1, forward, here_too) {
            Some(c) => {
                assert(match_from(hays, pat, from, forward, here_too, start) == Some((row, c)));
                assert(comes_first(hays, pat, from, forward, here_too, start, start, c));
                assert(is_the_first(hays, pat, from, forward, here_too, start, row, c));
            },
            None => {
                lemma_first_of_all(hays, pat, from, forward, here_too, start + 1);
                assert(match_from(hays, pat, from, forward, here_too, start) == match_from(
                    hays,
                    pat,
                    from,
                    forward,
                    here_too,
                    start + 1,
                ));
                if start == 0 {
                    assert(row == from.0);
                }
                if let Some((r, col)) = match_from(hays, pat, from, forward, here_too, start + 1) {
                    let step = choose|step: int|
                        r == rows_on(from.0, n, step, forward) && #[trigger] comes_first(
                            hays,
                            pat,
                            from,
                            forward,
                            here_too,
                            start + 1,
                            step,
                            col,
                        );
                    assert(comes_first(hays, pat, from, forward, here_too, start, step, col));
                    assert(is_the_first(hays, pat, from, forward, here_too, start, r, col));
                } else {
                    assert forall|s: int| start <= s <= n && s > 0 implies (#[trigger] hits_from(
                        hays[rows_on(from.0, n, s, forward)],
                        pat,
                        0,
                    )).len() == 0 by {
                        if s == start {
                            assert(cols.len() == 0);
                        }
                    }
                }
            },
        }
    } else {
        assert(match_from(hays, pat, from, forward, here_too, start) is None);
    }
}

/// A search lands on the first hit it comes to, and passes over none. It finds nothing only where
/// no line holds what is looked for.
pub proof fn a_search_passes_over_nothing(
    hays: Seq<Seq<char>>,
    pat: Seq<char>,
    from: (int, int),
    forward: bool,
    here_too: bool,
)
    requires
        pat.len() > 0,
        0 <= from.0 < hays.len(),
    ensures
        match match_from(hays, pat, from, forward, here_too, 0) {
            Some((row, col)) => is_the_first(
                hays,
                pat,
                from,
                forward,
                here_too,
                0,
                row,
                col,
            ),
            None => forall|row: int, at: int|
                0 <= row < hays.len() && 0 <= at && at + pat.len() <= hays[row].len()
                    ==> !#[trigger] is_at(hays[row], at, pat),
        },
{
    lemma_first_of_all(hays, pat, from, forward, here_too, 0);
    let n = hays.len() as int;
    if match_from(hays, pat, from, forward, here_too, 0) is None {
        assert forall|row: int, at: int|
            0 <= row < n && 0 <= at && at + pat.len() <= hays[row].len() implies !#[trigger] is_at(
            hays[row],
            at,
            pat,
        ) by {
            let s = if forward {
                if row > from.0 {
                    row - from.0
                } else {
                    row - from.0 + n
                }
            } else {
                if row < from.0 {
                    from.0 - row
                } else {
                    from.0 - row + n
                }
            };
            assert(rows_on(from.0, n, s, forward) == row);
            assert(hits_from(hays[rows_on(from.0, n, s, forward)], pat, 0).len() == 0);
            a_line_is_hit_wherever_the_word_stands(hays[row], pat);
        }
    }
}

/// On the row it starts from a search lands on the nearest hit onwards, and it leaves that row only
/// where there is none.
pub proof fn a_search_stays_on_its_row_while_it_can(
    hays: Seq<Seq<char>>,
    pat: Seq<char>,
    from: (int, int),
    forward: bool,
    here_too: bool,
    c: int,
)
    requires
        pat.len() > 0,
        0 <= from.0 < hays.len(),
        hits_from(hays[from.0], pat, 0).contains(c),
        if forward {
            from.1 < c || (here_too && c == from.1)
        } else {
            c < from.1 || (here_too && c == from.1)
        },
    ensures
        match match_from(hays, pat, from, forward, here_too, 0) {
            Some((row, col)) => {
                &&& row == from.0
                &&& hits_from(hays[from.0], pat, 0).contains(col)
                &&& forward ==> (from.1 < col || (here_too && col == from.1)) && col <= c
                &&& !forward ==> (col < from.1 || (here_too && col == from.1)) && c <= col
            },
            None => false,
        },
{
    let cols = hits_from(hays[from.0], pat, 0);
    rows_are_searched_in_turn(from.0, hays.len() as int, 0, forward);
    a_line_is_hit_wherever_the_word_stands(hays[from.0], pat);
    forwards_is_the_nearest_on_the_right(cols, from.1, here_too);
    backwards_is_the_nearest_on_the_left(cols, from.1, here_too);
}

proof fn lemma_every_hit(hays: Seq<Seq<char>>, pat: Seq<char>, h: Hit)
    ensures
        all_hits(hays, pat).contains(h) == {
            &&& 0 <= h.0 < hays.len()
            &&& hits_from(hays[h.0], pat, 0).contains(h.1)
            &&& h.2 == h.1 + width_in_bytes(pat)
        },
    decreases hays.len(),
{
    if hays.len() > 0 {
        let above = all_hits(hays.drop_last(), pat);
        let last = hays.len() - 1;
        let cols = hits_from(hays.last(), pat, 0);
        let here = row_hits(last, hays.last(), pat);
        lemma_every_hit(hays.drop_last(), pat, h);
        let all = all_hits(hays, pat);
        assert(all == above + here);
        if all.contains(h) {
            let k = choose|k: int| 0 <= k < all.len() && all[k] == h;
            if k < above.len() {
                assert(above[k] == h);
            } else {
                let c = cols[k - above.len()];
                assert(here[k - above.len()] == (last, c, c + width_in_bytes(pat)));
                assert(cols.contains(c));
            }
        }
        if above.contains(h) {
            let k = choose|k: int| 0 <= k < above.len() && above[k] == h;
            assert(all[k] == h);
        }
        if h.0 == last && cols.contains(h.1) && h.2 == h.1 + width_in_bytes(pat) {
            let k = choose|k: int| 0 <= k < cols.len() && cols[k] == h.1;
            assert(here[k] == h);
            assert(all[above.len() + k] == h);
        }
        if 0 <= h.0 < last {
            assert(hays.drop_last()[h.0] == hays[h.0]);
        }
    }
}

/// Every hit of every line is among those that are coloured, with the bytes it covers, and nothing
/// else is; where there are more than five hundred, the first five hundred are.
pub proof fn every_hit_is_coloured(hays: Seq<Seq<char>>, pat: Seq<char>)
    ensures
        forall|h: Hit| #[trigger]
            all_hits(hays, pat).contains(h) == {
                &&& 0 <= h.0 < hays.len()
                &&& hits_from(hays[h.0], pat, 0).contains(h.1)
                &&& h.2 == h.1 + width_in_bytes(pat)
            },
        first_hits(all_hits(hays, pat)).len() == (if all_hits(hays, pat).len() < 500 {
            all_hits(hays, pat).len()
        } else {
            500
        }),
        first_hits(all_hits(hays, pat)).is_prefix_of(all_hits(hays, pat)),
{
    assert forall|h: Hit| #[trigger]
        all_hits(hays, pat).contains(h) == {
            &&& 0 <= h.0 < hays.len()
            &&& hits_from(hays[h.0], pat, 0).contains(h.1)
            &&& h.2 == h.1 + width_in_bytes(pat)
        } by {
        lemma_every_hit(hays, pat, h);
    }
    assert(first_hits(all_hits(hays, pat)).is_prefix_of(all_hits(hays, pat)));
}

/// A search with a capital in it is for just those characters; one without finds them whatever
/// their case. A search for nothing finds nothing.
pub proof fn a_capital_makes_a_search_mind_case(
    lines: Seq<Seq<char>>,
    query: Seq<char>,
    from: (int, int),
    forward: bool,
    here_too: bool,
)
    requires
        0 <= from.0 < lines.len(),
    ensures
        query.len() == 0 ==> next_match(lines, query, from, forward, here_too) is None,
        (exists|i: int| 0 <= i < query.len() && is_capital(#[trigger] query[i])) ==> {
            match next_match(lines, query, from, forward, here_too) {
                Some((row, col)) => {
                    &&& 0 <= row < lines.len()
                    &&& stands_from(lines[row], query, col, 0)
                },
                None => forall|row: int, at: int|
                    0 <= row < lines.len() && 0 <= at && at + query.len() <= lines[row].len()
                        ==> !#[trigger] is_at(lines[row], at, query),
            }
        },
        (query.len() > 0 && lowercase_of(query).len() > 0 && forall|i: int|
            0 <= i < query.len() ==> !is_capital(#[trigger] query[i])) ==> {
            match next_match(lines, query, from, forward, here_too) {
                Some((row, col)) => {
                    &&& 0 <= row < lines.len()
                    &&& stands_from(
                        lowercase_of(lines[row]),
                        lowercase_of(query),
                        col,
                        0,
                    )
                },
                None => forall|row: int, at: int|
                    0 <= row < lines.len() && 0 <= at && at + lowercase_of(query).len()
                        <= lowercase_of(lines[row]).len() ==> !#[trigger] is_at(
                        lowercase_of(lines[row]),
                        at,
                        lowercase_of(query),
                    ),
            }
        },
{
    let hays = looked_at(lines, minds_case(query));
    let pat = looked_for(query);
    if query.len() > 0 && pat.len() > 0 {
        a_search_passes_over_nothing(hays, pat, from, forward, here_too);
        crate::host::search::a_search_lands_on_a_hit(hays, pat, from, forward, here_too, 0);
        if let Some((row, col)) = match_from(hays, pat, from, forward, here_too, 0) {
            a_line_is_hit_wherever_the_word_stands(hays[row], pat);
            let cols = hits_from(hays[row], pat, 0);
            let k = choose|k: int| 0 <= k < cols.len() && cols[k] == col;
            assert(stands_from(hays[row], pat, cols[k], 0));
        } else {
            assert forall|row: int, at: int|
                0 <= row < lines.len() && 0 <= at && at + lowercase_of(query).len()
                    <= lowercase_of(lines[row]).len() && !minds_case(query) implies !#[trigger] is_at(
                lowercase_of(lines[row]),
                at,
                lowercase_of(query),
            ) by {
                assert(hays[row] == lowercase_of(lines[row]));
                assert(!is_at(hays[row], at, pat));
            }
        }
    }
}

} // verus!
