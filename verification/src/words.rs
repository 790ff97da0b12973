//! Small questions about text: case, lines, prefixes, replacements.

use crate::text::{
    begins, ends, find_from, found_from, position, raw_lines, split_on, stands_at, starts_with,
    string_of, texts,
};
use vstd::prelude::*;
use vstd::slice::slice_subrange;

verus! {

/// An ASCII capital as the small letter it goes with; anything else as it is.
pub open spec fn lower_char(c: char) -> char {
    if 'A' <= c <= 'Z' {
        ((c as u8) + 32) as u8 as char
    } else {
        c
    }
}

/// A text with its ASCII capitals made small.
pub open spec fn lower(s: Seq<char>) -> Seq<char> {
    s.map_values(|c: char| lower_char(c))
}

fn small(c: char) -> (r: char)
    ensures
        r == lower_char(c),
{
    if 'A' <= c && c <= 'Z' {
        (c as u8 + 32) as char
    } else {
        c
    }
}

/// A text with its ASCII capitals made small.
pub fn lowered(s: &[char]) -> (r: Vec<char>)
    ensures
        r@ == lower(s@),
{
    let mut r: Vec<char> = Vec::new();
    let mut i: usize = 0;
    while i < s.len()
        invariant
            i <= s@.len(),
            r@.len() == i,
            forall|j: int| 0 <= j < i ==> #[trigger] r@[j] == lower_char(s@[j]),
        decreases s@.len() - i,
    {
        r.push(small(s[i]));
        i = i + 1;
    }
    assert(r@ =~= lower(s@));
    r
}

/// A line without the newline that ends it, and without the carriage return before that.
pub open spec fn unended(line: Seq<char>) -> Seq<char> {
    if line.len() > 0 && line.last() == '\n' {
        let a = line.drop_last();
        if a.len() > 0 && a.last() == '\r' {
            a.drop_last()
        } else {
            a
        }
    } else {
        line
    }
}

/// The lines of a text, without what ends them.
pub open spec fn lines_of(s: Seq<char>) -> Seq<Seq<char>> {
    raw_lines(s).map_values(|l: Seq<char>| unended(l))
}

/// The texts of some slices.
pub open spec fn slices(v: Seq<&[char]>) -> Seq<Seq<char>> {
    v.map_values(|l: &[char]| l@)
}

fn strip_end(line: &[char]) -> (r: &[char])
    ensures
        r@ == unended(line@),
{
    let n = line.len();
    if n > 0 && line[n - 1] == '\n' {
        let a = slice_subrange(line, 0, n - 1);
        assert(a@ =~= line@.drop_last());
        if n > 1 && a[n - 2] == '\r' {
            let b = slice_subrange(a, 0, n - 2);
            assert(b@ =~= a@.drop_last());
            b
        } else {
            a
        }
    } else {
        line
    }
}

/// The lines of a text, without what ends them.
pub fn lines(s: &[char]) -> (r: Vec<&[char]>)
    ensures
        slices(r@) == lines_of(s@),
{
    let raw = crate::markdown::lines::cut_lines(s);
    let mut r: Vec<&[char]> = Vec::new();
    let mut i: usize = 0;
    while i < raw.len()
        invariant
            i <= raw@.len(),
            r@.len() == i,
            forall|j: int| 0 <= j < i ==> (#[trigger] r@[j])@ == unended(raw@[j]@),
        decreases raw@.len() - i,
    {
        r.push(strip_end(raw[i]));
        i = i + 1;
    }
    proof {
        let ls = crate::markdown::table::line_texts(raw@);
        assert(ls.len() == raw@.len());
        assert(slices(r@) =~= lines_of(s@));
    }
    r
}

/// Whether `needle` occurs in `s`.
pub open spec fn holds(s: Seq<char>, needle: Seq<char>) -> bool {
    found_from(s, 0, needle) is Some
}

/// Whether `needle` occurs in `s`.
pub fn contains(s: &[char], needle: &str) -> (r: bool)
    ensures
        r == holds(s@, needle@),
{
    let n = crate::text::chars_of(needle);
    find_from(s, 0, n.as_slice()).is_some()
}

/// Whether `s` begins with `lead`.
pub fn leads(s: &[char], lead: &str) -> (r: bool)
    ensures
        r == begins(s@, lead@),
        r ==> lead@.len() <= s@.len(),
{
    let l = crate::text::chars_of(lead);
    starts_with(s, l.as_slice())
}

/// What follows `lead` in `s`, if `s` begins with it.
pub open spec fn past(s: Seq<char>, lead: Seq<char>) -> Option<Seq<char>> {
    if begins(s, lead) {
        Some(s.skip(lead.len() as int))
    } else {
        None
    }
}

/// What follows `lead` in `s`, if `s` begins with it.
pub fn strip_lead<'a>(s: &'a [char], lead: &str) -> (r: Option<&'a [char]>)
    ensures
        match r {
            Some(t) => past(s@, lead@) == Some(t@),
            None => past(s@, lead@) is None,
        },
{
    let l = crate::text::chars_of(lead);
    if starts_with(s, l.as_slice()) {
        let t = slice_subrange(s, l.len(), s.len());
        assert(t@ =~= s@.skip(lead@.len() as int));
        Some(t)
    } else {
        None
    }
}

/// Whether `s` ends with `tail`.
pub fn trails(s: &[char], tail: &str) -> (r: bool)
    ensures
        r == ends(s@, tail@),
{
    let t = crate::text::chars_of(tail);
    if t.len() > s.len() {
        return false;
    }
    proof {
        assert(s@.subrange(s@.len() - t@.len(), s@.len() - t@.len() + t@.len()) =~= s@.skip(
            s@.len() - t@.len(),
        ));
    }
    stands_at(s, s.len() - t.len(), t.as_slice())
}

/// A text with every `pat` in it, from the front, replaced.
pub open spec fn replaced(s: Seq<char>, pat: Seq<char>, by: Seq<char>) -> Seq<char>
    decreases s.len(),
{
    if s.len() == 0 {
        seq![]
    } else if pat.len() > 0 && begins(s, pat) {
        by + replaced(s.skip(pat.len() as int), pat, by)
    } else {
        seq![s[0]] + replaced(s.skip(1), pat, by)
    }
}

/// A text with every `pat` in it replaced.
pub fn replace(s: &[char], pat: &str, by: &str) -> (r: Vec<char>)
    requires
        pat@.len() > 0,
    ensures
        r@ == replaced(s@, pat@, by@),
{
    let p = crate::text::chars_of(pat);
    let b = crate::text::chars_of(by);
    let mut r: Vec<char> = Vec::new();
    let mut i: usize = 0;
    proof {
        assert(s@.skip(0) =~= s@);
        assert(r@ + replaced(s@, pat@, by@) =~= replaced(s@, pat@, by@));
    }
    while i < s.len()
        invariant
            i <= s@.len(),
            p@ == pat@,
            b@ == by@,
            pat@.len() > 0,
            r@ + replaced(s@.skip(i as int), pat@, by@) == replaced(s@, pat@, by@),
        decreases s@.len() - i,
    {
        let ghost rest = s@.skip(i as int);
        let ghost before = r@;
        proof {
            if i + pat@.len() <= s@.len() {
                assert(s@.subrange(i as int, i + pat@.len()) =~= rest.take(pat@.len() as int));
            }
        }
        if stands_at(s, i, p.as_slice()) {
            let mut more = b.clone();
            assert(more@ =~= b@);
            r.append(&mut more);
            i = i + p.len();
            proof {
                assert(rest.skip(pat@.len() as int) =~= s@.skip(i as int));
                assert(r@ + replaced(s@.skip(i as int), pat@, by@) =~= before + replaced(
                    rest,
                    pat@,
                    by@,
                ));
            }
        } else {
            r.push(s[i]);
            i = i + 1;
            proof {
                assert(rest.skip(1) =~= s@.skip(i as int));
                assert(r@ + replaced(s@.skip(i as int), pat@, by@) =~= before + replaced(
                    rest,
                    pat@,
                    by@,
                ));
            }
        }
    }
    assert(s@.skip(i as int) =~= seq![]);
    assert(r@ + Seq::<char>::empty() =~= r@);
    r
}

/// Some texts with `sep` between one and the next.
pub open spec fn joined_with(v: Seq<Seq<char>>, sep: Seq<char>) -> Seq<char>
    decreases v.len(),
{
    if v.len() == 0 {
        seq![]
    } else if v.len() == 1 {
        v[0]
    } else {
        joined_with(v.drop_last(), sep) + sep + v.last()
    }
}

/// Some texts with `sep` between one and the next.
pub fn join_with(v: &Vec<String>, sep: &str) -> (r: String)
    ensures
        r@ == joined_with(texts(v@), sep@),
{
    let ghost ts = texts(v@);
    let mut r = String::new();
    let mut i: usize = 0;
    assert(ts.take(0) =~= seq![]);
    assert(r@ =~= joined_with(ts.take(0), sep@));
    while i < v.len()
        invariant
            i <= v@.len(),
            ts == texts(v@),
            r@ == joined_with(ts.take(i as int), sep@),
        decreases v@.len() - i,
    {
        proof {
            assert(ts.take(i + 1).drop_last() =~= ts.take(i as int));
            assert(ts.take(i + 1).last() == v@[i as int]@);
        }
        let ghost before = r@;
        if i > 0 {
            r.push_str(sep);
        }
        r.push_str(v[i].as_str());
        proof {
            if i == 0 {
                assert(before =~= seq![]);
                assert(r@ =~= ts.take(1)[0]);
            }
        }
        i = i + 1;
    }
    assert(ts.take(i as int) =~= ts);
    r
}

/// Where `c` last occurs in `s`: -1 where it does not.
pub open spec fn last_position_of(s: Seq<char>, c: char) -> int
    decreases s.len(),
{
    if s.len() == 0 {
        -1
    } else if s.last() == c {
        s.len() - 1
    } else {
        last_position_of(s.drop_last(), c)
    }
}

/// Where a character last occurs.
pub fn last_position(s: &[char], c: char) -> (r: Option<usize>)
    ensures
        match r {
            Some(i) => i == last_position_of(s@, c) && i < s@.len() && s@[i as int] == c,
            None => last_position_of(s@, c) == -1,
        },
{
    let mut i: usize = s.len();
    assert(s@.take(i as int) =~= s@);
    while i > 0
        invariant
            i <= s@.len(),
            last_position_of(s@, c) == last_position_of(s@.take(i as int), c),
        decreases i,
    {
        assert(s@.take(i as int).drop_last() =~= s@.take(i - 1));
        if s[i - 1] == c {
            return Some(i - 1);
        }
        i = i - 1;
    }
    None
}

/// Glue two texts together.
pub fn concat(a: &str, b: &str) -> (r: String)
    ensures
        r@ == a@ + b@,
{
    let mut r = a.to_owned();
    r.push_str(b);
    r
}

/// The pieces of `s` between one `c` and the next.
pub fn split(s: &[char], c: char) -> (r: Vec<String>)
    ensures
        texts(r@) == split_on(s@, c),
{
    let mut r: Vec<String> = Vec::new();
    let n = s.len();
    let mut at: usize = 0;
    assert(s@.skip(0) =~= s@);
    assert(texts(r@) + split_on(s@.skip(0), c) =~= split_on(s@, c));
    loop
        invariant
            n == s@.len(),
            at <= n,
            texts(r@) + split_on(s@.skip(at as int), c) == split_on(s@, c),
        decreases n - at,
    {
        let rest = slice_subrange(s, at, n);
        assert(rest@ =~= s@.skip(at as int));
        let i = position(rest, c);
        let ghost above = texts(r@);
        if i < rest.len() {
            r.push(string_of(slice_subrange(rest, 0, i)));
            proof {
                assert(rest@.subrange(0, i as int) =~= rest@.take(i as int));
                assert(texts(r@) =~= above + seq![rest@.take(i as int)]);
                assert(rest@.skip(i + 1) =~= s@.skip(at + i + 1));
                assert(texts(r@) + split_on(s@.skip(at + i + 1), c) =~= above + (seq![
                    rest@.take(i as int),
                ] + split_on(rest@.skip(i + 1), c)));
            }
            at = at + i + 1;
        } else {
            r.push(string_of(rest));
            proof {
                assert(texts(r@) =~= above + seq![rest@]);
            }
            return r;
        }
    }
}

} // verus!
