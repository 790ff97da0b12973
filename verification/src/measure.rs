//! How text measures on a screen.
//!
//! Two questions that only the Unicode tables can answer: how many columns a text takes, and where
//! one thing a reader would call a character ends and the next begins.

use crate::text::texts;
use vstd::prelude::*;

verus! {

/// How many screen columns `unicode_width` gives a text.
pub uninterp spec fn columns_of(s: Seq<char>) -> nat;

/// The extended grapheme clusters that `unicode_segmentation` cuts a text into.
pub uninterp spec fn graphemes_of(s: Seq<char>) -> Seq<Seq<char>>;

/// Some pieces of text, one after another.
pub open spec fn run_on(v: Seq<Seq<char>>) -> Seq<char>
    decreases v.len(),
{
    if v.len() == 0 {
        seq![]
    } else {
        run_on(v.drop_last()) + v.last()
    }
}

/// `unicode_width::UnicodeWidthStr::width`, which looks its argument up in the Unicode tables and
/// nowhere else. How many columns that comes to is left to the name.
#[verifier::external_body]
pub(crate) fn display_width(s: &str) -> (n: usize)
    ensures
        n == columns_of(s@),
{
    unicode_width::UnicodeWidthStr::width(s)
}

/// `unicode_segmentation::UnicodeSegmentation::graphemes` with extended clusters, each as a string
/// of its own. One after another they are the whole text, and none is empty. Where they end is left
/// to the name.
#[verifier::external_body]
pub(crate) fn graphemes(s: &str) -> (r: Vec<String>)
    ensures
        texts(r@) == graphemes_of(s@),
        run_on(texts(r@)) == s@,
        forall|i: int| 0 <= i < r@.len() ==> (#[trigger] r@[i])@.len() > 0,
{
    unicode_segmentation::UnicodeSegmentation::graphemes(s, true).map(|g| g.to_string()).collect()
}

/// Pieces of text, each with the columns it takes.
pub open spec fn pieces(v: Seq<(String, usize)>) -> Seq<(Seq<char>, nat)> {
    v.map_values(|p: (String, usize)| (p.0@, p.1 as nat))
}

/// As many pieces as fit into some columns.
pub open spec fn fitting(ps: Seq<(Seq<char>, nat)>, room: nat) -> Seq<char>
    decreases ps.len(),
{
    if ps.len() == 0 || ps[0].1 > room {
        seq![]
    } else {
        ps[0].0 + fitting(ps.skip(1), (room - ps[0].1) as nat)
    }
}

/// The graphemes of a text with the columns each takes.
pub open spec fn measured(s: Seq<char>) -> Seq<(Seq<char>, nat)> {
    graphemes_of(s).map_values(|g: Seq<char>| (g, columns_of(g)))
}

/// Text clipped to some columns, with an ellipsis where it was cut.
pub open spec fn clip_of(s: Seq<char>, max: nat) -> Seq<char> {
    if columns_of(s) <= max {
        s
    } else {
        fitting(measured(s), if max == 0 { 0 } else { (max - 1) as nat }).push('\u{2026}')
    }
}

/// Take pieces from the front for as long as they fit.
pub fn take_fitting(ps: &Vec<(String, usize)>, room: usize) -> (r: String)
    ensures
        r@ == fitting(pieces(ps@), room as nat),
{
    let mut r = String::new();
    let mut left: usize = room;
    let mut i: usize = 0;
    let ghost all = pieces(ps@);
    proof {
        assert(all.skip(0) =~= all);
        assert(r@ + fitting(all, room as nat) =~= fitting(all, room as nat));
    }
    while i < ps.len()
        invariant
            i <= ps@.len(),
            all == pieces(ps@),
            r@ + fitting(all.skip(i as int), left as nat) == fitting(all, room as nat),
        decreases ps@.len() - i,
    {
        let ghost rest = all.skip(i as int);
        assert(rest[0] == all[i as int]);
        if ps[i].1 > left {
            proof {
                assert(r@ + Seq::<char>::empty() =~= r@);
            }
            return r;
        }
        let ghost before = r@;
        r.push_str(ps[i].0.as_str());
        left = left - ps[i].1;
        i = i + 1;
        proof {
            assert(rest.skip(1) =~= all.skip(i as int));
            assert(r@ + fitting(rest.skip(1), left as nat) =~= before + fitting(
                rest,
                (left + ps@[i - 1].1) as nat,
            ));
        }
    }
    proof {
        assert(r@ + fitting(all.skip(i as int), left as nat) =~= r@);
    }
    r
}

/// Some pieces are the first `n` of them and then the others.
pub proof fn lemma_run_on_cut(v: Seq<Seq<char>>, n: int)
    requires
        0 <= n <= v.len(),
    ensures
        run_on(v) == run_on(v.take(n)) + run_on(v.skip(n)),
    decreases v.len(),
{
    if n == v.len() {
        assert(v.take(n) =~= v);
        assert(v.skip(n) =~= seq![]);
        assert(run_on(v) + Seq::<char>::empty() =~= run_on(v));
    } else {
        let less = v.drop_last();
        lemma_run_on_cut(less, n);
        assert(less.take(n) =~= v.take(n));
        assert(v.skip(n).drop_last() =~= less.skip(n));
        assert(v.skip(n).last() == v.last());
        assert(run_on(v) =~= run_on(v.take(n)) + run_on(v.skip(n)));
    }
}

/// As many pieces as fit are the first of them.
proof fn lemma_fitting_is_front(v: Seq<Seq<char>>, ps: Seq<(Seq<char>, nat)>, room: nat) -> (n: int)
    requires
        ps.len() == v.len(),
        forall|i: int| 0 <= i < v.len() ==> (#[trigger] ps[i]).0 == v[i],
    ensures
        0 <= n <= v.len(),
        fitting(ps, room) == run_on(v.take(n)),
    decreases v.len(),
{
    if ps.len() == 0 || ps[0].1 > room {
        assert(v.take(0) =~= seq![]);
        0
    } else {
        let rest = ps.skip(1);
        assert forall|i: int| 0 <= i < v.skip(1).len() implies (#[trigger] rest[i]).0 == v.skip(
            1,
        )[i] by {
            assert(ps[i + 1].0 == v[i + 1]);
        }
        let n = lemma_fitting_is_front(v.skip(1), rest, (room - ps[0].1) as nat);
        let front = v.take(n + 1);
        lemma_run_on_cut(front, 1);
        assert(front.skip(1) =~= v.skip(1).take(n));
        assert(front.take(1) =~= seq![v[0]]);
        reveal_with_fuel(run_on, 2);
        assert(seq![v[0]].drop_last() =~= seq![]);
        assert(run_on(seq![v[0]]) =~= v[0]);
        n + 1
    }
}

/// Clip to a column budget without splitting a grapheme. What is cut keeps its front.
pub fn clip(s: &str, max: usize) -> (r: String)
    ensures
        r@ == clip_of(s@, max as nat),
        r@ == s@ || exists|n: int| 0 <= n <= s@.len() && r@ == (#[trigger] s@.take(n)).push('\u{2026}'),
{
    if display_width(s) <= max {
        return s.to_owned();
    }
    let gs = graphemes(s);
    let mut ps: Vec<(String, usize)> = Vec::new();
    let mut i: usize = 0;
    while i < gs.len()
        invariant
            i <= gs@.len(),
            texts(gs@) == graphemes_of(s@),
            run_on(texts(gs@)) == s@,
            pieces(ps@) =~= measured(s@).take(i as int),
        decreases gs@.len() - i,
    {
        let w = display_width(gs[i].as_str());
        let ghost before = pieces(ps@);
        ps.push((gs[i].clone(), w));
        proof {
            assert(texts(gs@)[i as int] == gs@[i as int]@);
            assert(measured(s@)[i as int] == (gs@[i as int]@, w as nat));
            assert(pieces(ps@) =~= before.push((gs@[i as int]@, w as nat)));
        }
        i = i + 1;
    }
    proof {
        assert(measured(s@).take(i as int) =~= measured(s@));
        let gv = graphemes_of(s@);
        let k = lemma_fitting_is_front(
            gv,
            measured(s@),
            (if max == 0 {
                0
            } else {
                max - 1
            }) as nat,
        );
        lemma_run_on_cut(gv, k);
        let n = run_on(gv.take(k)).len() as int;
        assert(s@.take(n) =~= run_on(gv.take(k)));
    }
    let mut r = take_fitting(&ps, if max == 0 { 0 } else { max - 1 });
    r.push('\u{2026}');
    r
}

/// What some pieces come to across.
pub open spec fn across(ps: Seq<(Seq<char>, nat)>) -> nat
    decreases ps.len(),
{
    if ps.len() == 0 {
        0
    } else {
        ps[0].1 + across(ps.skip(1))
    }
}

/// Some pieces one after another, from the front.
pub open spec fn said_by(ps: Seq<(Seq<char>, nat)>) -> Seq<char>
    decreases ps.len(),
{
    if ps.len() == 0 {
        seq![]
    } else {
        ps[0].0 + said_by(ps.skip(1))
    }
}

/// What fits of some pieces is the first so many of them, whole, that are no wider than the room
/// there is; one more would be.
pub proof fn as_much_as_fits_is_shown(ps: Seq<(Seq<char>, nat)>, room: nat)
    ensures
        exists|n: int|
            {
                &&& 0 <= n <= ps.len()
                &&& fitting(ps, room) == said_by(#[trigger] ps.take(n))
                &&& across(ps.take(n)) <= room
                &&& n < ps.len() ==> across(ps.take(n)) + ps[n].1 > room
            },
    decreases ps.len(),
{
    if ps.len() == 0 || ps[0].1 > room {
        let none = ps.take(0);
        assert(across(none) == 0);
        assert(fitting(ps, room) =~= said_by(none));
    } else {
        let rest = ps.skip(1);
        let left = (room - ps[0].1) as nat;
        as_much_as_fits_is_shown(rest, left);
        let n = choose|n: int|
            {
                &&& 0 <= n <= rest.len()
                &&& fitting(rest, left) == said_by(#[trigger] rest.take(n))
                &&& across(rest.take(n)) <= left
                &&& n < rest.len() ==> across(rest.take(n)) + rest[n].1 > left
            };
        let more = ps.take(n + 1);
        assert(more.skip(1) =~= rest.take(n));
        assert(more[0] == ps[0]);
        assert(fitting(ps, room) == said_by(more));
    }
}

/// What fits is left as it is, and what does not is cut short and ends in three dots.
pub proof fn what_is_cut_short_says_so(s: Seq<char>, max: nat)
    ensures
        columns_of(s) <= max ==> clip_of(s, max) == s,
        columns_of(s) > max ==> clip_of(s, max).len() > 0 && clip_of(s, max).last() == '\u{2026}',
{
}

} // verus!
