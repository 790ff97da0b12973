//! Plain text, a character at a time.
//!
//! Everything that reads or lays out text does it on slices of `char`, whose view is the sequence
//! of characters itself. Byte offsets appear only where a highlight needs one.

use vstd::prelude::*;
use vstd::slice::slice_subrange;
use vstd::utf8::{encode_utf8, encode_utf8_decode_utf8};

verus! {

/// `String::push_str` puts the characters of its argument after those already there.
pub assume_specification[ String::push_str ](s: &mut String, t: &str)
    ensures
        final(s)@ == old(s)@ + t@,
;

/// `String::push` puts one character after those already there.
pub assume_specification[ String::push ](s: &mut String, c: char)
    ensures
        final(s)@ == old(s)@.push(c),
;

/// The texts that a list of strings holds.
pub open spec fn texts(v: Seq<String>) -> Seq<Seq<char>> {
    v.map_values(|s: String| s@)
}

/// How many bytes some characters take.
pub open spec fn width_in_bytes(s: Seq<char>) -> nat {
    encode_utf8(s).len()
}

/// The bytes of two texts are the bytes of one after those of the other.
pub proof fn lemma_bytes_concat(a: Seq<char>, b: Seq<char>)
    ensures
        width_in_bytes(a + b) == width_in_bytes(a) + width_in_bytes(b),
    decreases a.len(),
{
    if a.len() == 0 {
        assert(a + b =~= b);
    } else {
        lemma_bytes_concat(a.drop_first(), b);
        assert((a + b).drop_first() =~= a.drop_first() + b);
    }
}

/// The characters of a string, one by one.
pub fn chars_of(s: &str) -> (r: Vec<char>)
    ensures
        r@ == s@,
{
    let mut r: Vec<char> = Vec::new();
    for c in it: s.chars()
        invariant
            r@ == s@.take(it.index()),
            it.seq() == s@,
    {
        proof {
            assert(s@.take(it.index() + 1) =~= s@.take(it.index()).push(c));
        }
        r.push(c);
    }
    proof {
        assert(s@.take(s@.len() as int) =~= s@);
    }
    r
}

/// The string that some characters make.
pub fn string_of(s: &[char]) -> (r: String)
    ensures
        r@ == s@,
{
    let mut r = String::new();
    push_chars(&mut r, s);
    proof {
        assert(r@ =~= s@);
    }
    r
}

/// Put some characters after what a string already holds.
pub fn push_chars(r: &mut String, s: &[char])
    ensures
        final(r)@ == old(r)@ + s@,
{
    let ghost before = r@;
    let mut i: usize = 0;
    proof {
        assert(before + s@.take(0) =~= before);
    }
    while i < s.len()
        invariant
            i <= s@.len(),
            r@ == before + s@.take(i as int),
        decreases s@.len() - i,
    {
        r.push(s[i]);
        i = i + 1;
        proof {
            assert(before + s@.take(i as int) =~= (before + s@.take(i - 1)).push(s@[i - 1]));
        }
    }
    proof {
        assert(s@.take(s@.len() as int) =~= s@);
    }
}

/// How many bytes a string takes.
pub fn bytes_in(s: &str) -> (n: usize)
    ensures
        n == width_in_bytes(s@),
{
    s.as_bytes().len()
}

/// A character of the Unicode property `White_Space`.
pub open spec fn is_white(c: char) -> bool {
    ||| '\u{9}' <= c <= '\u{d}'
    ||| c == ' '
    ||| c == '\u{85}'
    ||| c == '\u{a0}'
    ||| c == '\u{1680}'
    ||| '\u{2000}' <= c <= '\u{200a}'
    ||| c == '\u{2028}'
    ||| c == '\u{2029}'
    ||| c == '\u{202f}'
    ||| c == '\u{205f}'
    ||| c == '\u{3000}'
}

/// Whether a character is white space.
pub fn is_space(c: char) -> (r: bool)
    ensures
        r == is_white(c),
{
    ('\u{9}' <= c && c <= '\u{d}') || c == ' ' || c == '\u{85}' || c == '\u{a0}'
        || c == '\u{1680}' || ('\u{2000}' <= c && c <= '\u{200a}') || c == '\u{2028}'
        || c == '\u{2029}' || c == '\u{202f}' || c == '\u{205f}' || c == '\u{3000}'
}


/// What is left of some text once every leading character that `p` picks is gone.
pub open spec fn after_lead(s: Seq<char>, p: spec_fn(char) -> bool) -> Seq<char>
    decreases s.len(),
{
    if s.len() > 0 && p(s[0]) {
        after_lead(s.skip(1), p)
    } else {
        s
    }
}

/// What is left of some text once every trailing character that `p` picks is gone.
pub open spec fn before_tail(s: Seq<char>, p: spec_fn(char) -> bool) -> Seq<char>
    decreases s.len(),
{
    if s.len() > 0 && p(s.last()) {
        before_tail(s.drop_last(), p)
    } else {
        s
    }
}

pub proof fn lemma_after_lead(s: Seq<char>, p: spec_fn(char) -> bool, i: int)
    requires
        0 <= i <= s.len(),
        forall|j: int| 0 <= j < i ==> p(#[trigger] s[j]),
        i < s.len() ==> !p(s[i]),
    ensures
        after_lead(s, p) == s.skip(i),
    decreases i,
{
    if i == 0 {
        assert(s.skip(0) =~= s);
    } else {
        assert(p(s[0]));
        assert forall|j: int| 0 <= j < i - 1 implies p(#[trigger] s.skip(1)[j]) by {
            assert(p(s[j + 1]));
        }
        lemma_after_lead(s.skip(1), p, i - 1);
        assert(s.skip(1).skip(i - 1) =~= s.skip(i));
    }
}

pub proof fn lemma_before_tail(s: Seq<char>, p: spec_fn(char) -> bool, i: int)
    requires
        0 <= i <= s.len(),
        forall|j: int| i <= j < s.len() ==> p(#[trigger] s[j]),
        i > 0 ==> !p(s[i - 1]),
    ensures
        before_tail(s, p) == s.take(i),
    decreases s.len() - i,
{
    if i == s.len() {
        assert(s.take(i) =~= s);
    } else {
        assert(p(s[s.len() - 1]));
        lemma_before_tail(s.drop_last(), p, i);
        assert(s.drop_last().take(i) =~= s.take(i));
    }
}

/// Text without its leading white space.
pub open spec fn trim_start_of(s: Seq<char>) -> Seq<char> {
    after_lead(s, |c: char| is_white(c))
}

/// Text without its trailing white space.
pub open spec fn trim_end_of(s: Seq<char>) -> Seq<char> {
    before_tail(s, |c: char| is_white(c))
}

/// Text without the white space around it.
pub open spec fn trim_of(s: Seq<char>) -> Seq<char> {
    trim_end_of(trim_start_of(s))
}

/// Text with nothing in it but white space.
pub open spec fn is_blank(s: Seq<char>) -> bool {
    forall|i: int| 0 <= i < s.len() ==> is_white(#[trigger] s[i])
}

pub fn trim_start(s: &[char]) -> (r: &[char])
    ensures
        r@ == trim_start_of(s@),
{
    let mut i: usize = 0;
    while i < s.len() && is_space(s[i])
        invariant
            i <= s@.len(),
            forall|j: int| 0 <= j < i ==> is_white(#[trigger] s@[j]),
        decreases s@.len() - i,
    {
        i = i + 1;
    }
    proof {
        lemma_after_lead(s@, |c: char| is_white(c), i as int);
        assert(s@.skip(i as int) =~= s@.subrange(i as int, s@.len() as int));
    }
    slice_subrange(s, i, s.len())
}

pub fn trim_end(s: &[char]) -> (r: &[char])
    ensures
        r@ == trim_end_of(s@),
{
    let mut i: usize = s.len();
    while i > 0 && is_space(s[i - 1])
        invariant
            i <= s@.len(),
            forall|j: int| i <= j < s@.len() ==> is_white(#[trigger] s@[j]),
        decreases i,
    {
        i = i - 1;
    }
    proof {
        lemma_before_tail(s@, |c: char| is_white(c), i as int);
        assert(s@.take(i as int) =~= s@.subrange(0, i as int));
    }
    slice_subrange(s, 0, i)
}

pub fn trim(s: &[char]) -> (r: &[char])
    ensures
        r@ == trim_of(s@),
{
    trim_end(trim_start(s))
}

/// Nothing is left of a text by trimming exactly when it is blank.
pub proof fn lemma_trim_blank(s: Seq<char>)
    ensures
        (trim_start_of(s).len() == 0) == is_blank(s),
        (trim_end_of(s).len() == 0) == is_blank(s),
        (trim_of(s).len() == 0) == is_blank(s),
{
    lemma_lead_stop(s, |c: char| is_white(c));
    lemma_tail_stop(s, |c: char| is_white(c));
    let t = trim_start_of(s);
    lemma_tail_stop(t, |c: char| is_white(c));
    if t.len() > 0 {
        assert(!is_white(t[0]));
        if trim_end_of(t).len() == 0 {
            assert(is_white(t[0]));
        }
    }
}

/// Where trimming at the front stops.
pub proof fn lemma_lead_stop(s: Seq<char>, p: spec_fn(char) -> bool) -> (i: int)
    ensures
        0 <= i <= s.len(),
        after_lead(s, p) == s.skip(i),
        forall|j: int| 0 <= j < i ==> p(#[trigger] s[j]),
        i < s.len() ==> !p(s[i]) && after_lead(s, p)[0] == s[i],
    decreases s.len(),
{
    if s.len() > 0 && p(s[0]) {
        let k = lemma_lead_stop(s.skip(1), p);
        assert(s.skip(1).skip(k) =~= s.skip(k + 1));
        assert forall|j: int| 0 <= j < k + 1 implies p(#[trigger] s[j]) by {
            if j > 0 {
                assert(p(s.skip(1)[j - 1]));
            }
        }
        k + 1
    } else {
        assert(s.skip(0) =~= s);
        0
    }
}

/// Where trimming at the back stops.
pub proof fn lemma_tail_stop(s: Seq<char>, p: spec_fn(char) -> bool) -> (i: int)
    ensures
        0 <= i <= s.len(),
        before_tail(s, p) == s.take(i),
        forall|j: int| i <= j < s.len() ==> p(#[trigger] s[j]),
        i > 0 ==> !p(s[i - 1]),
    decreases s.len(),
{
    if s.len() > 0 && p(s.last()) {
        let k = lemma_tail_stop(s.drop_last(), p);
        assert(s.drop_last().take(k) =~= s.take(k));
        assert forall|j: int| k <= j < s.len() implies p(#[trigger] s[j]) by {
            if j < s.len() - 1 {
                assert(p(s.drop_last()[j]));
            }
        }
        k
    } else {
        assert(s.take(s.len() as int) =~= s);
        s.len() as int
    }
}

/// Where `c` first occurs in `s`: the length of `s` where it does not.
pub open spec fn position_of(s: Seq<char>, c: char) -> int
    decreases s.len(),
{
    if s.len() == 0 || s[0] == c {
        0
    } else {
        1 + position_of(s.skip(1), c)
    }
}

pub proof fn lemma_position(s: Seq<char>, c: char, i: int)
    requires
        0 <= i <= s.len(),
        forall|j: int| 0 <= j < i ==> #[trigger] s[j] != c,
        i < s.len() ==> s[i] == c,
    ensures
        position_of(s, c) == i,
    decreases i,
{
    if i > 0 {
        assert(s[0] != c);
        assert forall|j: int| 0 <= j < i - 1 implies #[trigger] s.skip(1)[j] != c by {
            assert(s[j + 1] != c);
        }
        lemma_position(s.skip(1), c, i - 1);
    }
}

pub proof fn lemma_position_found(s: Seq<char>, c: char)
    ensures
        0 <= position_of(s, c) <= s.len(),
        forall|j: int| 0 <= j < position_of(s, c) ==> #[trigger] s[j] != c,
        position_of(s, c) < s.len() ==> s[position_of(s, c)] == c,
    decreases s.len(),
{
    if s.len() > 0 && s[0] != c {
        lemma_position_found(s.skip(1), c);
        assert forall|j: int| 0 <= j < position_of(s, c) implies #[trigger] s[j] != c by {
            if j > 0 {
                assert(s.skip(1)[j - 1] != c);
            }
        }
    }
}

/// Where a character first occurs.
pub fn position(s: &[char], c: char) -> (i: usize)
    ensures
        i == position_of(s@, c),
        i <= s@.len(),
        i < s@.len() ==> s@[i as int] == c,
{
    let mut i: usize = 0;
    while i < s.len() && s[i] != c
        invariant
            i <= s@.len(),
            forall|j: int| 0 <= j < i ==> #[trigger] s@[j] != c,
        decreases s@.len() - i,
    {
        i = i + 1;
    }
    proof {
        lemma_position(s@, c, i as int);
    }
    i
}

/// The pieces of `s` between one `c` and the next.
pub open spec fn split_on(s: Seq<char>, c: char) -> Seq<Seq<char>>
    decreases s.len(),
{
    let i = position_of(s, c);
    if 0 <= i < s.len() {
        seq![s.take(i)] + split_on(s.skip(i + 1), c)
    } else {
        seq![s]
    }
}

/// The lines of `s`, each with the newline that ends it. The last may have none.
pub open spec fn raw_lines(s: Seq<char>) -> Seq<Seq<char>>
    decreases s.len(),
{
    if s.len() == 0 {
        seq![]
    } else {
        let i = position_of(s, '\n');
        if 0 <= i < s.len() {
            seq![s.take(i + 1)] + raw_lines(s.skip(i + 1))
        } else {
            seq![s]
        }
    }
}

/// Whether `s` begins with `lead`.
pub open spec fn begins(s: Seq<char>, lead: Seq<char>) -> bool {
    lead.len() <= s.len() && s.take(lead.len() as int) == lead
}

/// Whether `s` ends with `tail`.
pub open spec fn ends(s: Seq<char>, tail: Seq<char>) -> bool {
    tail.len() <= s.len() && s.skip(s.len() - tail.len()) == tail
}

/// The first place at or after `from` where `needle` begins, if it occurs there at all.
pub open spec fn found_from(s: Seq<char>, from: int, needle: Seq<char>) -> Option<int>
    decreases s.len() + 1 - from,
{
    if from < 0 || from + needle.len() > s.len() {
        None
    } else if s.subrange(from, from + needle.len()) == needle {
        Some(from)
    } else {
        found_from(s, from + 1, needle)
    }
}

pub proof fn lemma_found_from(s: Seq<char>, from: int, needle: Seq<char>)
    ensures
        found_from(s, from, needle) is Some ==> from <= found_from(s, from, needle)->0
            && 0 <= found_from(s, from, needle)->0
            && found_from(s, from, needle)->0 + needle.len() <= s.len()
            && s.subrange(found_from(s, from, needle)->0, found_from(s, from, needle)->0 + needle.len()) == needle,
    decreases s.len() + 1 - from,
{
    if from >= 0 && from + needle.len() <= s.len()
        && s.subrange(from, from + needle.len()) != needle {
        lemma_found_from(s, from + 1, needle);
    }
}

/// Whether two runs of characters are the same.
pub fn same_chars(a: &[char], b: &[char]) -> (r: bool)
    ensures
        r == (a@ == b@),
{
    if a.len() != b.len() {
        return false;
    }
    let mut i: usize = 0;
    while i < a.len()
        invariant
            i <= a@.len(),
            a@.len() == b@.len(),
            forall|j: int| 0 <= j < i ==> #[trigger] a@[j] == b@[j],
        decreases a@.len() - i,
    {
        if a[i] != b[i] {
            return false;
        }
        i = i + 1;
    }
    proof {
        assert(a@ =~= b@);
    }
    true
}

/// Whether two strings say the same.
pub fn same_text(a: &str, b: &str) -> (r: bool)
    ensures
        r == (a@ == b@),
{
    let x = a.as_bytes();
    let y = b.as_bytes();
    proof {
        encode_utf8_decode_utf8(a@);
        encode_utf8_decode_utf8(b@);
    }
    if x.len() != y.len() {
        return false;
    }
    let mut i: usize = 0;
    while i < x.len()
        invariant
            i <= x@.len(),
            x@.len() == y@.len(),
            x@ == encode_utf8(a@),
            y@ == encode_utf8(b@),
            forall|j: int| 0 <= j < i ==> #[trigger] x@[j] == y@[j],
        decreases x@.len() - i,
    {
        if x[i] != y[i] {
            return false;
        }
        i = i + 1;
    }
    assert(x@ =~= y@);
    true
}

/// Whether `needle` stands in `s` at `at`.
pub fn stands_at(s: &[char], at: usize, needle: &[char]) -> (r: bool)
    ensures
        r == (at + needle@.len() <= s@.len() && s@.subrange(at as int, at + needle@.len()) == needle@),
{
    if needle.len() > s.len() || at > s.len() - needle.len() {
        return false;
    }
    same_chars(slice_subrange(s, at, at + needle.len()), needle)
}

/// Whether `s` begins with `lead`.
pub fn starts_with(s: &[char], lead: &[char]) -> (r: bool)
    ensures
        r == begins(s@, lead@),
{
    proof {
        if lead@.len() <= s@.len() {
            assert(s@.subrange(0, lead@.len() as int) =~= s@.take(lead@.len() as int));
        }
    }
    stands_at(s, 0, lead)
}

/// The first place at or after `from` where `needle` begins.
pub fn find_from(s: &[char], from: usize, needle: &[char]) -> (r: Option<usize>)
    ensures
        match r {
            Some(i) => found_from(s@, from as int, needle@) == Some(i as int) && from <= i
                && i + needle@.len() <= s@.len(),
            None => found_from(s@, from as int, needle@) is None,
        },
{
    let mut i: usize = from;
    while needle.len() <= s.len() && i <= s.len() - needle.len()
        invariant
            from <= i,
            found_from(s@, from as int, needle@) == found_from(s@, i as int, needle@),
        decreases s@.len() + 1 - i,
    {
        if stands_at(s, i, needle) {
            return Some(i);
        }
        if i == usize::MAX {
            return None;
        }
        i = i + 1;
    }
    None
}

/// The digits of a number.
pub open spec fn decimal(n: nat) -> Seq<char>
    decreases n,
{
    if n < 10 {
        seq![digit(n)]
    } else {
        decimal(n / 10).push(digit(n % 10))
    }
}

/// One digit.
pub open spec fn digit(n: nat) -> char {
    ((48 + n) as u8) as char
}

/// A number in figures.
pub fn decimal_of(n: u64) -> (r: String)
    ensures
        r@ == decimal(n as nat),
    decreases n,
{
    let last: u8 = (n % 10) as u8;
    let c = (48u8 + last) as char;
    if n < 10 {
        let mut r = String::new();
        r.push(c);
        proof {
            assert(r@ =~= seq![digit(n as nat)]);
        }
        r
    } else {
        let mut r = decimal_of(n / 10);
        r.push(c);
        r
    }
}

} // verus!
