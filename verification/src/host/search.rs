//! Searching the transcript.

use crate::text::{
    chars_of, find_from, found_from, lemma_bytes_concat, lemma_found_from, string_of, texts,
    width_in_bytes,
};
use vstd::arithmetic::div_mod::{lemma_mod_add_multiples_vanish, lemma_small_mod};
use vstd::prelude::*;
use vstd::slice::slice_subrange;

verus! {

/// A text in lower case, as Unicode has it.
pub uninterp spec fn lowercase_of(s: Seq<char>) -> Seq<char>;

/// `str::to_lowercase`. What each text comes to is left to the name.
#[verifier::external_body]
fn lowercase(s: &str) -> (r: String)
    ensures
        r@ == lowercase_of(s@),
{
    s.to_lowercase()
}

/// Whether a character is a capital, as Unicode has it.
pub uninterp spec fn is_capital(c: char) -> bool;

/// `char::is_uppercase`. Which characters those are is left to the name.
#[verifier::external_body]
fn capital(c: char) -> (r: bool)
    ensures
        r == is_capital(c),
{
    c.is_uppercase()
}

/// Whether a search minds case: only where what is looked for has a capital in it.
pub open spec fn minds_case(query: Seq<char>) -> bool {
    exists|i: int| 0 <= i < query.len() && is_capital(#[trigger] query[i])
}

fn cased(query: &str) -> (r: bool)
    ensures
        r == minds_case(query@),
{
    let cs = chars_of(query);
    let mut i: usize = 0;
    while i < cs.len()
        invariant
            i <= cs@.len(),
            cs@ == query@,
            forall|j: int| 0 <= j < i ==> !is_capital(#[trigger] query@[j]),
        decreases cs@.len() - i,
    {
        if capital(cs[i]) {
            assert(is_capital(query@[i as int]));
            return true;
        }
        i = i + 1;
    }
    false
}

/// Where `pat` occurs in `hay` at or after `from`, one after another, as byte offsets.
pub open spec fn hits_from(hay: Seq<char>, pat: Seq<char>, from: int) -> Seq<int>
    decreases hay.len() - from,
{
    match found_from(hay, from, pat) {
        Some(i) => if from <= i && i + pat.len() <= hay.len() && pat.len() > 0 {
            seq![width_in_bytes(hay.take(i)) as int] + hits_from(hay, pat, i + pat.len())
        } else {
            seq![]
        },
        None => seq![],
    }
}

/// Byte offsets as plain numbers.
pub open spec fn columns_of_hits(v: Seq<usize>) -> Seq<int> {
    v.map_values(|n: usize| n as int)
}

/// Where `pat` occurs in a line, one after another, as byte offsets.
pub fn hits(hay: &str, pat: &str) -> (r: Vec<usize>)
    requires
        pat@.len() > 0,
    ensures
        columns_of_hits(r@) == hits_from(hay@, pat@, 0),
{
    let h = chars_of(hay);
    let p = chars_of(pat);
    let mut r: Vec<usize> = Vec::new();
    let mut at: usize = 0;
    let n = h.len();
    proof {
        assert(columns_of_hits(r@) + hits_from(hay@, pat@, 0) =~= hits_from(hay@, pat@, 0));
    }
    loop
        invariant
            h@ == hay@,
            p@ == pat@,
            pat@.len() > 0,
            n == hay@.len(),
            at <= n,
            columns_of_hits(r@) + hits_from(hay@, pat@, at as int) == hits_from(hay@, pat@, 0),
        decreases n - at,
    {
        let ghost before = columns_of_hits(r@);
        match find_from(h.as_slice(), at, p.as_slice()) {
            None => {
                assert(before + Seq::<int>::empty() =~= before);
                return r;
            },
            Some(i) => {
                let lead = string_of(slice_subrange(h.as_slice(), 0, i));
                assert(lead@ =~= hay@.take(i as int));
                let col = crate::text::bytes_in(lead.as_str());
                r.push(col);
                proof {
                    assert(columns_of_hits(r@) =~= before.push(col as int));
                    assert(columns_of_hits(r@) + hits_from(hay@, pat@, i + pat@.len())
                        =~= before + hits_from(hay@, pat@, at as int));
                }
                at = i + p.len();
            },
        }
    }
}

/// Which of some columns a search lands on. On the row it starts from, only what lies onwards
/// counts, and whether what is under the cursor does is `here_too`.
pub open spec fn landing(
    cols: Seq<int>,
    starting: bool,
    here: int,
    forward: bool,
    here_too: bool,
) -> Option<int>
    decreases cols.len(),
{
    if cols.len() == 0 {
        None
    } else if forward {
        let c = cols[0];
        if !starting || c > here || (here_too && c == here) {
            Some(c)
        } else {
            landing(cols.skip(1), starting, here, forward, here_too)
        }
    } else {
        let c = cols.last();
        if !starting || c < here || (here_too && c == here) {
            Some(c)
        } else {
            landing(cols.drop_last(), starting, here, forward, here_too)
        }
    }
}

fn land(cols: &Vec<usize>, starting: bool, here: usize, forward: bool, here_too: bool) -> (r: Option<
    usize,
>)
    ensures
        match r {
            Some(c) => landing(
                columns_of_hits(cols@),
                starting,
                here as int,
                forward,
                here_too,
            ) == Some(c as int),
            None => landing(
                columns_of_hits(cols@),
                starting,
                here as int,
                forward,
                here_too,
            ) is None,
        },
{
    let ghost cs = columns_of_hits(cols@);
    if forward {
        let mut i: usize = 0;
        assert(cs.skip(0) =~= cs);
        while i < cols.len()
            invariant
                i <= cols@.len(),
                cs == columns_of_hits(cols@),
                forward,
                landing(cs, starting, here as int, forward, here_too) == landing(
                    cs.skip(i as int),
                    starting,
                    here as int,
                    forward,
                    here_too,
                ),
            decreases cols@.len() - i,
        {
            let c = cols[i];
            assert(cs.skip(i as int)[0] == c);
            assert(cs.skip(i as int).skip(1) =~= cs.skip(i + 1));
            if !starting || c > here || (here_too && c == here) {
                return Some(c);
            }
            i = i + 1;
        }
        None
    } else {
        let mut i: usize = cols.len();
        assert(cs.take(i as int) =~= cs);
        while i > 0
            invariant
                i <= cols@.len(),
                cs == columns_of_hits(cols@),
                !forward,
                landing(cs, starting, here as int, forward, here_too) == landing(
                    cs.take(i as int),
                    starting,
                    here as int,
                    forward,
                    here_too,
                ),
            decreases i,
        {
            let c = cols[i - 1];
            assert(cs.take(i as int).last() == c);
            assert(cs.take(i as int).drop_last() =~= cs.take(i - 1));
            if !starting || c < here || (here_too && c == here) {
                return Some(c);
            }
            i = i - 1;
        }
        None
    }
}

/// The row that a search comes to after `step` rows, wrapping round the end.
pub open spec fn row_after(from: int, n: int, step: int, forward: bool) -> int {
    if forward {
        (from + step) % n
    } else {
        (from + n - step % n) % n
    }
}

/// Where a search lands, from `step` rows on, in some lines as they are looked at.
pub open spec fn match_from(
    hays: Seq<Seq<char>>,
    pat: Seq<char>,
    from: (int, int),
    forward: bool,
    here_too: bool,
    step: int,
) -> Option<(int, int)>
    decreases hays.len() + 1 - step,
{
    if hays.len() == 0 || step < 0 || step > hays.len() {
        None
    } else {
        let row = row_after(from.0, hays.len() as int, step, forward);
        match landing(hits_from(hays[row], pat, 0), step == 0, from.1, forward, here_too) {
            Some(c) => Some((row, c)),
            None => match_from(hays, pat, from, forward, here_too, step + 1),
        }
    }
}

fn step_row(from: usize, n: usize, step: usize, forward: bool) -> (r: usize)
    requires
        n > 0,
        step <= n,
    ensures
        r == row_after(from as int, n as int, step as int, forward),
        r < n,
{
    let at = from % n;
    let ghost q = from as int / n as int;
    proof {
        vstd::arithmetic::div_mod::lemma_fundamental_div_mod(from as int, n as int);
    }
    if forward {
        let r = if step < n - at {
            at + step
        } else {
            step - (n - at)
        };
        proof {
            lemma_mod_add_multiples_vanish(at as int + step, n as int);
            assert(from + step == q * n + (at + step)) by (nonlinear_arith)
                requires
                    from == n * q + at,
            ;
            vstd::arithmetic::div_mod::lemma_mod_multiples_vanish(q, at as int + step, n as int);
            assert((from + step) as int % n as int == (at as int + step) % n as int) by {
                assert(n * q + (at + step) == from + step) by (nonlinear_arith)
                    requires
                        from == n * q + at,
                ;
            }
            if step < n - at {
                lemma_small_mod((at + step) as nat, n as nat);
            } else {
                lemma_small_mod((at + step - n) as nat, n as nat);
                lemma_mod_add_multiples_vanish(at as int + step - n, n as int);
            }
        }
        r
    } else {
        let k = step % n;
        let r = if at >= k {
            at - k
        } else {
            n - (k - at)
        };
        proof {
            let x = at as int + n - k;
            vstd::arithmetic::div_mod::lemma_mod_multiples_vanish(q, x, n as int);
            assert(n * q + x == from + n - k) by (nonlinear_arith)
                requires
                    from == n * q + at,
                    x == at + n - k,
            ;
            assert((from as int + n - k) % n as int == x % n as int);
            if at >= k {
                lemma_small_mod((at - k) as nat, n as nat);
                lemma_mod_add_multiples_vanish(at as int - k, n as int);
            } else {
                lemma_small_mod((at + n - k) as nat, n as nat);
            }
        }
        r
    }
}

/// The next match in some lines as they are looked at, wrapping round the end.
///
/// `here_too` is the difference between typing a search, which should land on the match under the
/// cursor if there is one, and pressing `n`, which must move.
pub fn find_in(
    hays: &Vec<String>,
    pat: &str,
    from: (usize, usize),
    forward: bool,
    here_too: bool,
) -> (r: Option<(usize, usize)>)
    requires
        pat@.len() > 0,
    ensures
        match r {
            Some((row, col)) => row < hays@.len() && match_from(
                texts(hays@),
                pat@,
                (from.0 as int, from.1 as int),
                forward,
                here_too,
                0,
            ) == Some((row as int, col as int)),
            None => match_from(
                texts(hays@),
                pat@,
                (from.0 as int, from.1 as int),
                forward,
                here_too,
                0,
            ) is None,
        },
{
    let n = hays.len();
    let ghost hs = texts(hays@);
    let ghost f = (from.0 as int, from.1 as int);
    assert(hs.len() == n);
    if n == 0 {
        return None;
    }
    let mut step: usize = 0;
    loop
        invariant
            n == hays@.len(),
            n > 0,
            hs == texts(hays@),
            f == (from.0 as int, from.1 as int),
            pat@.len() > 0,
            step <= n,
            match_from(hs, pat@, f, forward, here_too, 0) == match_from(
                hs,
                pat@,
                f,
                forward,
                here_too,
                step as int,
            ),
        decreases n + 1 - step,
    {
        let row = step_row(from.0, n, step, forward);
        assert(hs[row as int] == hays@[row as int]@);
        let cols = hits(hays[row].as_str(), pat);
        if let Some(c) = land(&cols, step == 0, from.1, forward, here_too) {
            return Some((row, c));
        }
        if step == n {
            assert(match_from(hs, pat@, f, forward, here_too, n + 1) is None);
            return None;
        }
        step = step + 1;
    }
}

/// Some lines as a search looks at them.
pub open spec fn looked_at(lines: Seq<Seq<char>>, case: bool) -> Seq<Seq<char>> {
    if case {
        lines
    } else {
        lines.map_values(|l: Seq<char>| lowercase_of(l))
    }
}

/// What a search looks for.
pub open spec fn looked_for(query: Seq<char>) -> Seq<char> {
    if minds_case(query) {
        query
    } else {
        lowercase_of(query)
    }
}

fn look_at(lines: &Vec<String>, case: bool) -> (r: Vec<String>)
    ensures
        texts(r@) == looked_at(texts(lines@), case),
{
    let mut r: Vec<String> = Vec::new();
    let mut i: usize = 0;
    while i < lines.len()
        invariant
            i <= lines@.len(),
            r@.len() == i,
            forall|j: int|
                0 <= j < i ==> (#[trigger] r@[j])@ == (if case {
                    lines@[j]@
                } else {
                    lowercase_of(lines@[j]@)
                }),
        decreases lines@.len() - i,
    {
        r.push(
            if case {
                lines[i].clone()
            } else {
                lowercase(lines[i].as_str())
            },
        );
        i = i + 1;
    }
    assert(texts(r@) =~= looked_at(texts(lines@), case));
    r
}

/// The next match in the transcript, wrapping round the end. Nothing is found by a search for
/// nothing.
pub open spec fn next_match(
    lines: Seq<Seq<char>>,
    query: Seq<char>,
    from: (int, int),
    forward: bool,
    here_too: bool,
) -> Option<(int, int)> {
    if query.len() == 0 || looked_for(query).len() == 0 {
        None
    } else {
        match_from(
            looked_at(lines, minds_case(query)),
            looked_for(query),
            from,
            forward,
            here_too,
            0,
        )
    }
}

/// A place in the transcript.
pub open spec fn place(p: (usize, usize)) -> (int, int) {
    (p.0 as int, p.1 as int)
}

/// The next match in the transcript, wrapping round the end.
pub fn search_from(
    lines: &Vec<String>,
    query: &str,
    from: (usize, usize),
    forward: bool,
    here_too: bool,
) -> (r: Option<(usize, usize)>)
    ensures
        match r {
            Some((row, col)) => row < lines@.len() && next_match(
                texts(lines@),
                query@,
                place(from),
                forward,
                here_too,
            ) == Some((row as int, col as int)),
            None => next_match(texts(lines@), query@, place(from), forward, here_too) is None,
        },
{
    if query.is_empty() {
        return None;
    }
    let case = cased(query);
    let pat = if case {
        query.to_owned()
    } else {
        lowercase(query)
    };
    if pat.as_str().is_empty() {
        return None;
    }
    let hays = look_at(lines, case);
    let r = find_in(&hays, pat.as_str(), from, forward, here_too);
    proof {
        assert(texts(hays@).len() == hays@.len());
        assert(looked_at(texts(lines@), case).len() == lines@.len());
    }
    r
}

/// A hit: its row, and the bytes it covers.
pub type Hit = (int, int, int);

/// The hits in one row.
pub open spec fn row_hits(row: int, hay: Seq<char>, pat: Seq<char>) -> Seq<Hit> {
    hits_from(hay, pat, 0).map_values(|c: int| (row, c, c + width_in_bytes(pat)))
}

/// The hits in some rows, in order.
pub open spec fn all_hits(hays: Seq<Seq<char>>, pat: Seq<char>) -> Seq<Hit>
    decreases hays.len(),
{
    if hays.len() == 0 {
        seq![]
    } else {
        all_hits(hays.drop_last(), pat) + row_hits(hays.len() - 1, hays.last(), pat)
    }
}

/// The most hits that are coloured. A one-letter search against a long transcript is thousands, and
/// every one of them travels; the cursor still walks to every hit.
pub const MOST_HITS: usize = 500;

/// Hits as plain numbers.
pub open spec fn hits_shown(v: Seq<(usize, usize, usize)>) -> Seq<Hit> {
    v.map_values(|h: (usize, usize, usize)| (h.0 as int, h.1 as int, h.2 as int))
}

/// The first so many of some hits.
pub open spec fn first_hits(v: Seq<Hit>) -> Seq<Hit> {
    if v.len() <= MOST_HITS {
        v
    } else {
        v.take(MOST_HITS as int)
    }
}

proof fn lemma_hits_grow(hays: Seq<Seq<char>>, pat: Seq<char>, n: int)
    requires
        0 <= n <= hays.len(),
    ensures
        all_hits(hays.take(n), pat).len() <= all_hits(hays, pat).len(),
        all_hits(hays, pat).take(all_hits(hays.take(n), pat).len() as int) == all_hits(
            hays.take(n),
            pat,
        ),
    decreases hays.len(),
{
    if n == hays.len() {
        assert(hays.take(n) =~= hays);
        assert(all_hits(hays, pat).take(all_hits(hays, pat).len() as int) =~= all_hits(hays, pat));
    } else {
        lemma_hits_grow(hays.drop_last(), pat, n);
        assert(hays.drop_last().take(n) =~= hays.take(n));
        let k = all_hits(hays.take(n), pat).len() as int;
        assert(all_hits(hays, pat).take(k) =~= all_hits(hays.drop_last(), pat).take(k));
    }
}

/// Every hit, so the shape of where a word appears is visible without walking to each: up to
/// [`MOST_HITS`] of them, in order.
pub fn matches_in(hays: &Vec<String>, pat: &str) -> (r: Vec<(usize, usize, usize)>)
    requires
        pat@.len() > 0,
    ensures
        hits_shown(r@) == first_hits(all_hits(texts(hays@), pat@)),
{
    let ghost hs = texts(hays@);
    let p = chars_of(pat);
    let size = crate::text::bytes_in(pat);
    let mut r: Vec<(usize, usize, usize)> = Vec::new();
    let mut row: usize = 0;
    assert(hs.take(0) =~= seq![]);
    assert(hits_shown(r@) =~= all_hits(hs.take(0), pat@));
    while row < hays.len()
        invariant
            row <= hays@.len(),
            hs == texts(hays@),
            pat@.len() > 0,
            p@ == pat@,
            size == width_in_bytes(pat@),
            r@.len() < MOST_HITS,
            hits_shown(r@) == all_hits(hs.take(row as int), pat@),
        decreases hays@.len() - row,
    {
        let cols = hits(hays[row].as_str(), pat);
        let ghost above = hits_shown(r@);
        let ghost here = row_hits(row as int, hs[row as int], pat@);
        proof {
            assert(hs[row as int] == hays@[row as int]@);
            assert(hs.take(row + 1).drop_last() =~= hs.take(row as int));
            assert(hs.take(row + 1).last() == hs[row as int]);
            assert(all_hits(hs.take(row + 1), pat@) == above + here);
            lemma_hits_fit(hays@[row as int]@, pat@, 0);
            assert(hits_shown(r@) =~= above + here.take(0));
        }
        let h = chars_of(hays[row].as_str());
        let total = crate::text::bytes_in(hays[row].as_str());
        let mut k: usize = 0;
        while k < cols.len()
            invariant
                k <= cols@.len(),
                row < hays@.len(),
                hs == texts(hays@),
                hs[row as int] == hays@[row as int]@,
                size == width_in_bytes(pat@),
                total == width_in_bytes(hs[row as int]),
                columns_of_hits(cols@) == hits_from(hs[row as int], pat@, 0),
                forall|j: int|
                    0 <= j < hits_from(hs[row as int], pat@, 0).len() ==> #[trigger] hits_from(
                        hs[row as int],
                        pat@,
                        0,
                    )[j] + size <= total,
                here == row_hits(row as int, hs[row as int], pat@),
                above.len() + k < MOST_HITS,
                r@.len() == above.len() + k,
                hits_shown(r@) == above + here.take(k as int),
                all_hits(hs.take(row + 1), pat@) == above + here,
            decreases cols@.len() - k,
        {
            let c = cols[k];
            proof {
                assert(columns_of_hits(cols@)[k as int] == c);
                assert(hits_from(hs[row as int], pat@, 0)[k as int] + size <= total);
                assert(here[k as int] == (row as int, c as int, c + width_in_bytes(pat@)));
            }
            let ghost was = hits_shown(r@);
            r.push((row, c, c + size));
            k = k + 1;
            proof {
                assert(hits_shown(r@) =~= was.push(here[k - 1]));
                assert(above + here.take(k as int) =~= was.push(here[k - 1]));
            }
            if r.len() >= MOST_HITS {
                proof {
                    lemma_hits_grow(hs, pat@, row + 1);
                    let all = all_hits(hs, pat@);
                    let upto = above + here;
                    assert(upto.take(MOST_HITS as int) =~= hits_shown(r@));
                    assert(all.take(MOST_HITS as int) =~= upto.take(MOST_HITS as int)) by {
                        assert forall|j: int| 0 <= j < MOST_HITS implies all[j] == upto[j] by {
                            assert(all.take(upto.len() as int)[j] == upto[j]);
                        }
                    }
                    if all.len() <= MOST_HITS {
                        assert(all =~= all.take(MOST_HITS as int));
                    }
                }
                return r;
            }
        }
        assert(here.take(k as int) =~= here);
        row = row + 1;
    }
    assert(hs.take(row as int) =~= hs);
    r
}

proof fn lemma_hits_fit(hay: Seq<char>, pat: Seq<char>, from: int)
    requires
        0 <= from <= hay.len(),
        pat.len() > 0,
    ensures
        forall|j: int|
            0 <= j < hits_from(hay, pat, from).len() ==> #[trigger] hits_from(hay, pat, from)[j]
                + width_in_bytes(pat) <= width_in_bytes(hay),
    decreases hay.len() - from,
{
    if let Some(i) = found_from(hay, from, pat) {
        lemma_found_from(hay, from, pat);
        let next = i + pat.len();
        lemma_hits_fit(hay, pat, next);
        let rest = hits_from(hay, pat, next);
        let all = hits_from(hay, pat, from);
        assert(all == seq![width_in_bytes(hay.take(i)) as int] + rest);
        assert(hay =~= hay.take(i) + (pat + hay.skip(next)));
        lemma_bytes_concat(hay.take(i), pat + hay.skip(next));
        lemma_bytes_concat(pat, hay.skip(next));
        assert forall|j: int| 0 <= j < all.len() implies #[trigger] all[j] + width_in_bytes(pat)
            <= width_in_bytes(hay) by {
            if j > 0 {
                assert(all[j] == rest[j - 1]);
            }
        }
    }
}

/// Every hit of a search, up to [`MOST_HITS`] of them.
pub fn highlight_matches(lines: &Vec<String>, query: &str) -> (r: Vec<(usize, usize, usize)>)
    ensures
        if query@.len() == 0 || looked_for(query@).len() == 0 {
            r@.len() == 0
        } else {
            hits_shown(r@) == first_hits(
                all_hits(looked_at(texts(lines@), minds_case(query@)), looked_for(query@)),
            )
        },
{
    if query.is_empty() {
        return Vec::new();
    }
    let case = cased(query);
    let pat = if case {
        query.to_owned()
    } else {
        lowercase(query)
    };
    if pat.as_str().is_empty() {
        return Vec::new();
    }
    let hays = look_at(lines, case);
    matches_in(&hays, pat.as_str())
}

/// `n` is *onwards*, not forwards: after a search up the transcript it goes on up, and `N` comes
/// back down.
pub fn steps_forward(same_direction: bool, searched_back: bool) -> (r: bool)
    ensures
        r == (same_direction != searched_back),
        same_direction ==> r == !searched_back,
        !same_direction ==> r == searched_back,
{
    same_direction != searched_back
}

/// Wherever a search lands, what was looked for is there.
pub proof fn a_search_lands_on_a_hit(
    hays: Seq<Seq<char>>,
    pat: Seq<char>,
    from: (int, int),
    forward: bool,
    here_too: bool,
    step: int,
)
    requires
        step >= 0,
        from.0 >= 0,
    ensures
        match match_from(hays, pat, from, forward, here_too, step) {
            Some((row, col)) => 0 <= row < hays.len() && hits_from(hays[row], pat, 0).contains(col),
            None => true,
        },
    decreases hays.len() + 1 - step,
{
    if hays.len() > 0 && step <= hays.len() {
        let n = hays.len() as int;
        let row = row_after(from.0, n, step, forward);
        vstd::arithmetic::div_mod::lemma_mod_bound(from.0 + step, n);
        vstd::arithmetic::div_mod::lemma_mod_bound(from.0 + n - step % n, n);
        let cols = hits_from(hays[row], pat, 0);
        lemma_landing(cols, step == 0, from.1, forward, here_too);
        a_search_lands_on_a_hit(hays, pat, from, forward, here_too, step + 1);
    }
}

proof fn lemma_landing(cols: Seq<int>, starting: bool, here: int, forward: bool, here_too: bool)
    ensures
        match landing(cols, starting, here, forward, here_too) {
            Some(c) => cols.contains(c),
            None => true,
        },
    decreases cols.len(),
{
    if cols.len() > 0 {
        if forward {
            lemma_landing(cols.skip(1), starting, here, forward, here_too);
            assert(cols.contains(cols[0]));
            if let Some(c) = landing(cols.skip(1), starting, here, forward, here_too) {
                let j = choose|j: int| 0 <= j < cols.skip(1).len() && cols.skip(1)[j] == c;
                assert(cols[j + 1] == c);
            }
        } else {
            lemma_landing(cols.drop_last(), starting, here, forward, here_too);
            assert(cols.contains(cols[cols.len() - 1]));
            if let Some(c) = landing(cols.drop_last(), starting, here, forward, here_too) {
                let j = choose|j: int| 0 <= j < cols.drop_last().len() && cols.drop_last()[j] == c;
                assert(cols[j] == c);
            }
        }
    }
}

} // verus!
