//! Two spellings of one path: a slash too many, a `.` on the way, a slash at the end.

use crate::text::{
    begins, chars_of, lemma_position, lemma_position_found, position_of, same_text, split_on, texts,
};
use crate::words::split;
use vstd::prelude::*;

verus! {

/// Whether a path starts at the root.
pub open spec fn is_rooted(path: Seq<char>) -> bool {
    begins(path, seq!['/'])
}

/// The names among what stands between the slashes of a path: nothing is not one, and neither is a
/// dot, which stays where it is.
pub open spec fn names_among(v: Seq<Seq<char>>) -> Seq<Seq<char>>
    decreases v.len(),
{
    if v.len() == 0 {
        seq![]
    } else if v.last().len() == 0 || v.last() == seq!['.'] {
        names_among(v.drop_last())
    } else {
        names_among(v.drop_last()).push(v.last())
    }
}

/// The names a path leads through. A dot that it begins with is one of them.
pub open spec fn names_of(path: Seq<char>) -> Seq<Seq<char>> {
    let raw = split_on(path, '/');
    if raw[0].len() == 0 {
        names_among(raw.skip(1))
    } else {
        seq![raw[0]] + names_among(raw.skip(1))
    }
}

/// Whether two paths are spellings of one: they start at the same place and lead through the same
/// names.
pub open spec fn is_same_path(a: Seq<char>, b: Seq<char>) -> bool {
    is_rooted(a) == is_rooted(b) && names_of(a) == names_of(b)
}

/// Whether a path is among some, however it is spelled.
pub open spec fn is_among(v: Seq<Seq<char>>, path: Seq<char>) -> bool {
    exists|i: int| 0 <= i < v.len() && is_same_path(#[trigger] v[i], path)
}

fn names(path: &str) -> (r: Vec<String>)
    ensures
        texts(r@) == names_of(path@),
{
    let chars = chars_of(path);
    let raw = split(chars.as_slice(), '/');
    let ghost all = texts(raw@);
    let mut r: Vec<String> = Vec::new();
    proof {
        lemma_split_some(path@, '/');
        assert(all.len() == raw@.len());
        assert(all[0] == raw@[0]@);
    }
    if !raw[0].as_str().is_empty() {
        r.push(raw[0].clone());
    }
    let ghost head = texts(r@);
    let mut i: usize = 1;
    proof {
        assert(head =~= (if all[0].len() == 0 {
            seq![]
        } else {
            seq![all[0]]
        }));
        assert(all.subrange(1, 1) =~= seq![]);
        assert(head + names_among(seq![]) =~= head);
    }
    while i < raw.len()
        invariant
            1 <= i <= raw@.len(),
            all == texts(raw@),
            texts(r@) == head + names_among(all.subrange(1, i as int)),
        decreases raw@.len() - i,
    {
        let ghost was = texts(r@);
        proof {
            assert(all.subrange(1, i + 1).drop_last() =~= all.subrange(1, i as int));
            assert(all.subrange(1, i + 1).last() == raw@[i as int]@);
            reveal_strlit(".");
            assert("."@ =~= seq!['.']);
        }
        if !raw[i].as_str().is_empty() && !same_text(raw[i].as_str(), ".") {
            r.push(raw[i].clone());
            assert(texts(r@) =~= was.push(raw@[i as int]@));
            assert(texts(r@) =~= head + names_among(all.subrange(1, i + 1)));
        }
        i = i + 1;
    }
    proof {
        assert(all.subrange(1, i as int) =~= all.skip(1));
        assert(texts(r@) =~= names_of(path@));
    }
    r
}

/// Whether two paths are spellings of one.
pub fn same_path(a: &str, b: &str) -> (r: bool)
    ensures
        r == is_same_path(a@, b@),
{
    let ca = chars_of(a);
    let cb = chars_of(b);
    let root_a = ca.len() > 0 && ca[0] == '/';
    let root_b = cb.len() > 0 && cb[0] == '/';
    proof {
        assert(root_a == is_rooted(a@)) by {
            if a@.len() > 0 {
                assert(a@.take(1)[0] == a@[0]);
                if a@[0] == '/' {
                    assert(a@.take(1) =~= seq!['/']);
                }
            }
        }
        assert(root_b == is_rooted(b@)) by {
            if b@.len() > 0 {
                assert(b@.take(1)[0] == b@[0]);
                if b@[0] == '/' {
                    assert(b@.take(1) =~= seq!['/']);
                }
            }
        }
    }
    if root_a != root_b {
        return false;
    }
    let na = names(a);
    let nb = names(b);
    proof {
        assert(texts(na@).len() == na@.len());
        assert(texts(nb@).len() == nb@.len());
    }
    if na.len() != nb.len() {
        return false;
    }
    let mut i: usize = 0;
    while i < na.len()
        invariant
            i <= na@.len(),
            na@.len() == nb@.len(),
            texts(na@) == names_of(a@),
            texts(nb@) == names_of(b@),
            forall|j: int| 0 <= j < i ==> (#[trigger] na@[j])@ == nb@[j]@,
        decreases na@.len() - i,
    {
        if !same_text(na[i].as_str(), nb[i].as_str()) {
            proof {
                assert(texts(na@)[i as int] == na@[i as int]@);
                assert(texts(nb@)[i as int] == nb@[i as int]@);
            }
            return false;
        }
        i = i + 1;
    }
    assert(texts(na@) =~= texts(nb@));
    true
}

/// Whether a path is among some, however it is spelled.
pub fn path_among(v: &Vec<String>, path: &str) -> (r: bool)
    ensures
        r == is_among(texts(v@), path@),
{
    let ghost all = texts(v@);
    let mut i: usize = 0;
    while i < v.len()
        invariant
            i <= v@.len(),
            all == texts(v@),
            forall|j: int| 0 <= j < i ==> !is_same_path(#[trigger] all[j], path@),
        decreases v@.len() - i,
    {
        assert(all[i as int] == v@[i as int]@);
        if same_path(v[i].as_str(), path) {
            return true;
        }
        i = i + 1;
    }
    false
}

// ---- what holds of spellings ------------------------------------------------

proof fn lemma_split_some(s: Seq<char>, c: char)
    ensures
        split_on(s, c).len() > 0,
{
}

pub proof fn lemma_split_concat(a: Seq<char>, b: Seq<char>, c: char)
    ensures
        split_on(a + seq![c] + b, c) == split_on(a, c) + split_on(b, c),
    decreases a.len(),
{
    let s = a + seq![c] + b;
    let i = position_of(a, c);
    lemma_position_found(a, c);
    assert forall|j: int| 0 <= j < i implies #[trigger] s[j] != c by {
        assert(a[j] != c);
    }
    lemma_position(s, c, i);
    assert(s.take(i) =~= a.take(i));
    if i < a.len() {
        let rest = a.skip(i + 1);
        lemma_split_concat(rest, b, c);
        assert(s.skip(i + 1) =~= rest + seq![c] + b);
        assert(split_on(s, c) =~= split_on(a, c) + split_on(b, c));
    } else {
        assert(s.skip(i + 1) =~= b);
        assert(a.take(i) =~= a);
        assert(split_on(a, c) =~= seq![a]);
        assert(split_on(s, c) =~= split_on(a, c) + split_on(b, c));
    }
}

proof fn lemma_names_concat(a: Seq<Seq<char>>, b: Seq<Seq<char>>)
    ensures
        names_among(a + b) == names_among(a) + names_among(b),
    decreases b.len(),
{
    if b.len() == 0 {
        assert(a + b =~= a);
        assert(names_among(a) + names_among(b) =~= names_among(a));
    } else {
        assert((a + b).drop_last() =~= a + b.drop_last());
        assert((a + b).last() == b.last());
        lemma_names_concat(a, b.drop_last());
        assert(names_among(a + b) =~= names_among(a) + names_among(b));
    }
}

/// What stands in the middle of a path makes no difference where there is no name in it.
proof fn lemma_nothing_between(a: Seq<char>, mid: Seq<char>, b: Seq<char>)
    requires
        mid.len() == 0 || mid == seq!['.'],
    ensures
        is_same_path(a + seq!['/'] + mid + seq!['/'] + b, a + seq!['/'] + b),
{
    let loose = a + seq!['/'] + mid + seq!['/'] + b;
    let plain = a + seq!['/'] + b;
    let ra = split_on(a, '/');
    let rb = split_on(b, '/');
    assert(loose =~= a + seq!['/'] + (mid + seq!['/'] + b));
    lemma_split_concat(a, mid + seq!['/'] + b, '/');
    lemma_split_concat(mid, b, '/');
    lemma_split_concat(a, b, '/');
    lemma_split_some(a, '/');
    assert(split_on(mid, '/') =~= seq![mid]) by {
        lemma_position_found(mid, '/');
        assert(position_of(mid, '/') == mid.len()) by {
            lemma_position(mid, '/', mid.len() as int);
        }
    }
    let one = seq![mid];
    assert(split_on(loose, '/').skip(1) =~= ra.skip(1) + (one + rb));
    assert(split_on(plain, '/').skip(1) =~= ra.skip(1) + rb);
    lemma_names_concat(ra.skip(1), one + rb);
    lemma_names_concat(one, rb);
    lemma_names_concat(ra.skip(1), rb);
    assert(one.drop_last() =~= seq![]);
    reveal_with_fuel(names_among, 2);
    assert(one.last() == mid);
    assert(names_among(one) =~= seq![]);
    assert(names_among(one) + names_among(rb) =~= names_among(rb));
    assert(split_on(loose, '/')[0] == ra[0]);
    assert(split_on(plain, '/')[0] == ra[0]);
    assert(loose.take(1) =~= plain.take(1));
}

/// A slash too many, or a dot on the way, makes no other path of it.
pub proof fn a_path_may_be_spelled_loosely(a: Seq<char>, b: Seq<char>)
    ensures
        is_same_path(a + seq!['/', '/'] + b, a + seq!['/'] + b),
        is_same_path(a + seq!['/', '.', '/'] + b, a + seq!['/'] + b),
{
    let none: Seq<char> = seq![];
    lemma_nothing_between(a, none, b);
    lemma_nothing_between(a, seq!['.'], b);
    assert(a + seq!['/'] + none + seq!['/'] + b =~= a + seq!['/', '/'] + b);
    assert(a + seq!['/'] + seq!['.'] + seq!['/'] + b =~= a + seq!['/', '.', '/'] + b);
}

/// A slash at the end of a path makes no other path of it.
pub proof fn a_slash_at_the_end_is_nothing(a: Seq<char>)
    requires
        a.len() > 0,
    ensures
        is_same_path(a.push('/'), a),
{
    let none: Seq<char> = seq![];
    let ra = split_on(a, '/');
    lemma_split_concat(a, none, '/');
    assert(a.push('/') =~= a + seq!['/'] + none);
    assert(split_on(none, '/') =~= seq![none]);
    lemma_split_some(a, '/');
    assert(split_on(a.push('/'), '/').skip(1) =~= ra.skip(1).push(none));
    assert(ra.skip(1).push(none).drop_last() =~= ra.skip(1));
    assert(a.push('/').take(1) =~= a.take(1));
}

} // verus!
