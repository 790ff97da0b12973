//! Cutting a text into lines, and how lines add up.

use crate::markdown::model::is_whole;
use crate::markdown::table::line_texts;
use crate::text::{lemma_position_found, position, position_of, raw_lines};
use vstd::prelude::*;
use vstd::slice::slice_subrange;

verus! {

/// The characters of some lines, one line after another.
pub open spec fn joined(raw: Seq<Seq<char>>) -> Seq<char>
    decreases raw.len(),
{
    if raw.len() == 0 {
        seq![]
    } else {
        joined(raw.drop_last()) + raw.last()
    }
}

/// Lines as a text is cut into them: none is empty, and only the last may lack its newline.
pub open spec fn are_lines(raw: Seq<Seq<char>>) -> bool {
    &&& forall|i: int| 0 <= i < raw.len() ==> (#[trigger] raw[i]).len() > 0
    &&& forall|i: int| 0 <= i < raw.len() - 1 ==> is_whole(#[trigger] raw[i])
}

pub proof fn lemma_joined_one(l: Seq<char>)
    ensures
        joined(seq![l]) == l,
{
    reveal_with_fuel(joined, 2);
    assert(seq![l].drop_last() =~= seq![]);
    assert(joined(seq![l]) =~= l);
}

pub proof fn lemma_joined_concat(a: Seq<Seq<char>>, b: Seq<Seq<char>>)
    ensures
        joined(a + b) == joined(a) + joined(b),
    decreases b.len(),
{
    if b.len() == 0 {
        assert(a + b =~= a);
        assert(joined(a) + joined(b) =~= joined(a));
    } else {
        lemma_joined_concat(a, b.drop_last());
        assert((a + b).drop_last() =~= a + b.drop_last());
        assert(joined(a + b) =~= joined(a) + joined(b));
    }
}

/// Cutting a text into lines loses nothing of it.
pub proof fn lemma_raw_lines(s: Seq<char>)
    ensures
        joined(raw_lines(s)) == s,
        are_lines(raw_lines(s)),
        (s.len() > 0 && s.last() == '\n') ==> is_whole(raw_lines(s).last()),
        s.len() > 0 ==> raw_lines(s).len() > 0,
    decreases s.len(),
{
    if s.len() == 0 {
        assert(joined(raw_lines(s)) =~= s);
    } else {
        let i = position_of(s, '\n');
        lemma_position_found(s, '\n');
        if i < s.len() {
            let head = s.take(i + 1);
            let tail = s.skip(i + 1);
            lemma_raw_lines(tail);
            let r = raw_lines(s);
            assert(r == seq![head] + raw_lines(tail));
            lemma_joined_concat(seq![head], raw_lines(tail));
            lemma_joined_one(head);
            assert(head + tail =~= s);
            assert(is_whole(head));
            assert forall|k: int| 0 <= k < r.len() implies (#[trigger] r[k]).len() > 0 by {
                if k > 0 {
                    assert(r[k] == raw_lines(tail)[k - 1]);
                }
            }
            assert forall|k: int| 0 <= k < r.len() - 1 implies is_whole(#[trigger] r[k]) by {
                if k > 0 {
                    assert(r[k] == raw_lines(tail)[k - 1]);
                }
            }
            if tail.len() > 0 {
                assert(tail.last() == s.last());
                assert(r.last() == raw_lines(tail).last());
            } else {
                assert(raw_lines(tail) =~= seq![]);
                assert(r.last() == head);
            }
        } else {
            assert(raw_lines(s) =~= seq![s]);
            lemma_joined_one(s);
            assert(s.last() == s[s.len() - 1]);
        }
    }
}

/// A text that ends with a newline keeps its lines whatever comes after it.
pub proof fn lemma_raw_lines_concat(a: Seq<char>, b: Seq<char>)
    requires
        a.len() == 0 || a.last() == '\n',
    ensures
        raw_lines(a + b) == raw_lines(a) + raw_lines(b),
    decreases a.len(),
{
    if a.len() == 0 {
        assert(a + b =~= b);
        assert(raw_lines(a) + raw_lines(b) =~= raw_lines(b));
    } else {
        let i = position_of(a, '\n');
        lemma_position_found(a, '\n');
        if i == a.len() {
            assert(a[a.len() - 1] != '\n');
        }
        let s = a + b;
        assert forall|j: int| 0 <= j < i implies #[trigger] s[j] != '\n' by {
            assert(a[j] != '\n');
        }
        crate::text::lemma_position(s, '\n', i);
        let tail = a.skip(i + 1);
        if tail.len() > 0 {
            assert(tail.last() == a.last());
        }
        lemma_raw_lines_concat(tail, b);
        assert(s.take(i + 1) =~= a.take(i + 1));
        assert(s.skip(i + 1) =~= tail + b);
        assert(raw_lines(s) =~= raw_lines(a) + raw_lines(b));
    }
}

/// Joining whole lines and cutting them again gives the same lines.
pub proof fn lemma_lines_rejoined(s: Seq<char>, k: int)
    requires
        0 <= k <= raw_lines(s).len(),
        k < raw_lines(s).len() || s.len() == 0 || s.last() == '\n',
    ensures
        joined(raw_lines(s).take(k)).len() <= s.len(),
        s.take(joined(raw_lines(s).take(k)).len() as int) == joined(raw_lines(s).take(k)),
        raw_lines(joined(raw_lines(s).take(k))) == raw_lines(s).take(k),
        raw_lines(s.skip(joined(raw_lines(s).take(k)).len() as int)) == raw_lines(s).skip(k),
        joined(raw_lines(s).take(k)).len() == 0 || joined(raw_lines(s).take(k)).last() == '\n',
    decreases s.len(),
{
    let ls = raw_lines(s);
    if k == 0 {
        assert(ls.take(0) =~= seq![]);
        assert(ls.skip(0) =~= ls);
        assert(s.skip(0) =~= s);
        assert(s.take(0) =~= seq![]);
        assert(raw_lines(Seq::<char>::empty()) =~= seq![]);
    } else {
        let i = position_of(s, '\n');
        lemma_position_found(s, '\n');
        lemma_raw_lines(s);
        if i == s.len() {
            assert(ls =~= seq![s]);
            assert(s[s.len() - 1] != '\n');
            assert(false);
        }
        let head = s.take(i + 1);
        let tail = s.skip(i + 1);
        assert(ls == seq![head] + raw_lines(tail));
        assert(ls.skip(1) =~= raw_lines(tail));
        if tail.len() > 0 {
            assert(tail.last() == s.last());
        }
        lemma_lines_rejoined(tail, k - 1);
        let t = joined(raw_lines(tail).take(k - 1));
        assert(ls.take(k) =~= seq![head] + raw_lines(tail).take(k - 1));
        lemma_joined_concat(seq![head], raw_lines(tail).take(k - 1));
        lemma_joined_one(head);
        let whole = head + t;
        assert(joined(ls.take(k)) == whole);
        assert(s.take(whole.len() as int) =~= head + tail.take(t.len() as int));
        assert(head.last() == '\n');
        lemma_raw_lines_concat(head, t);
        assert(position_of(head, '\n') == i) by {
            assert forall|j: int| 0 <= j < i implies #[trigger] head[j] != '\n' by {
                assert(s[j] != '\n');
            }
            crate::text::lemma_position(head, '\n', i);
        }
        assert(head.take(i + 1) =~= head);
        assert(head.skip(i + 1) =~= seq![]);
        assert(raw_lines(Seq::<char>::empty()) =~= seq![]);
        assert(raw_lines(head) =~= seq![head]);
        assert(s.skip(whole.len() as int) =~= tail.skip(t.len() as int));
        assert(ls.skip(k) =~= raw_lines(tail).skip(k - 1));
        if t.len() > 0 {
            assert(whole.last() == t.last());
        } else {
            assert(whole =~= head);
        }
    }
}

/// The lines of a text, each with the newline that ends it.
pub fn cut_lines(s: &[char]) -> (r: Vec<&[char]>)
    ensures
        line_texts(r@) == raw_lines(s@),
{
    let mut r: Vec<&[char]> = Vec::new();
    let mut rest = s;
    proof {
        assert(line_texts(r@) + raw_lines(s@) =~= raw_lines(s@));
    }
    while rest.len() > 0
        invariant
            line_texts(r@) + raw_lines(rest@) == raw_lines(s@),
        decreases rest@.len(),
    {
        let i = position(rest, '\n');
        let ghost before = line_texts(r@);
        if i >= rest.len() {
            r.push(rest);
            assert(raw_lines(rest@) =~= seq![rest@]);
            assert(line_texts(r@) =~= before + raw_lines(rest@));
            return r;
        }
        let head = slice_subrange(rest, 0, i + 1);
        let tail = slice_subrange(rest, i + 1, rest.len());
        r.push(head);
        proof {
            assert(head@ =~= rest@.take(i + 1));
            assert(tail@ =~= rest@.skip(i + 1));
            assert(line_texts(r@) =~= before.push(head@));
            assert(line_texts(r@) + raw_lines(tail@) =~= before + raw_lines(rest@));
        }
        rest = tail;
    }
    assert(line_texts(r@) + raw_lines(rest@) =~= line_texts(r@));
    r
}

} // verus!
