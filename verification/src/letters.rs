//! What taking texts apart and putting them together comes to, whatever the text.

use crate::text::{
    begins, decimal, digit, ends, found_from, is_white, lemma_found_from, lemma_lead_stop,
    lemma_position_found, lemma_tail_stop, position_of, raw_lines, split_on, trim_end_of, trim_of,
    trim_start_of,
};
use crate::words::{holds, joined_with, last_position_of, lines_of, lower, past, replaced};
use vstd::prelude::*;

verus! {

/// Whether a text is nothing but white space.
pub open spec fn all_white(s: Seq<char>) -> bool {
    forall|i: int| 0 <= i < s.len() ==> is_white(#[trigger] s[i])
}

/// Trimming takes off the white space around a text, all of it, and nothing else.
pub proof fn trimming_takes_white_space_alone(s: Seq<char>)
    ensures
        trim_of(s).len() > 0 ==> !is_white(trim_of(s)[0]) && !is_white(trim_of(s).last()),
        exists|i: int, j: int|
            {
                &&& 0 <= i <= j <= s.len()
                &&& trim_of(s) == #[trigger] s.subrange(i, j)
                &&& all_white(s.take(i))
                &&& all_white(s.skip(j))
            },
        exists|i: int|
            0 <= i <= s.len() && trim_start_of(s) == #[trigger] s.skip(i) && all_white(s.take(i)),
        trim_start_of(s).len() > 0 ==> !is_white(trim_start_of(s)[0]),
        exists|j: int|
            0 <= j <= s.len() && trim_end_of(s) == #[trigger] s.take(j) && all_white(s.skip(j)),
        trim_end_of(s).len() > 0 ==> !is_white(trim_end_of(s).last()),
{
    let w = |c: char| is_white(c);
    let i = lemma_lead_stop(s, w);
    let j0 = lemma_tail_stop(s, w);
    let a = s.skip(i);
    assert(trim_start_of(s) == a);
    assert(all_white(s.take(i))) by {
        assert forall|k: int| 0 <= k < i implies is_white(#[trigger] s.take(i)[k]) by {
            assert(w(s[k]));
        }
    }
    assert(all_white(s.skip(j0))) by {
        assert forall|k: int| 0 <= k < s.len() - j0 implies is_white(#[trigger] s.skip(j0)[k]) by {
            assert(w(s[j0 + k]));
        }
    }
    assert(trim_end_of(s) == s.take(j0));
    let j = lemma_tail_stop(a, w);
    assert(trim_of(s) == a.take(j));
    assert(a.take(j) =~= s.subrange(i, i + j));
    assert(all_white(s.skip(i + j))) by {
        assert forall|k: int| 0 <= k < s.len() - (i + j) implies is_white(
            #[trigger] s.skip(i + j)[k],
        ) by {
            assert(w(a[j + k]));
        }
    }
    if trim_of(s).len() > 0 {
        assert(!w(a[0]));
        assert(!w(a[j - 1]));
    }
}

/// Where a character last occurs: it is there, and nowhere after.
pub proof fn the_last_place_is_the_last(s: Seq<char>, c: char)
    ensures
        ({
            let i = last_position_of(s, c);
            &&& -1 <= i < s.len()
            &&& i >= 0 ==> s[i] == c
            &&& forall|j: int| i < j < s.len() ==> #[trigger] s[j] != c
        }),
    decreases s.len(),
{
    if s.len() > 0 && s.last() != c {
        let t = s.drop_last();
        the_last_place_is_the_last(t, c);
        assert forall|j: int| last_position_of(s, c) < j < s.len() implies #[trigger] s[j] != c by {
            if j < t.len() {
                assert(t[j] != c);
            }
        }
    }
}

/// Where a character first occurs: it is there, and nowhere before.
pub proof fn the_first_place_is_the_first(s: Seq<char>, c: char)
    ensures
        ({
            let i = position_of(s, c);
            &&& 0 <= i <= s.len()
            &&& i < s.len() ==> s[i] == c
            &&& forall|j: int| 0 <= j < i ==> #[trigger] s[j] != c
        }),
{
    lemma_position_found(s, c);
}

/// The first place where one text stands in another, from a place on: it stands there, and at none
/// of the places between; where there is none, it stands nowhere.
pub proof fn what_is_found_is_the_first(s: Seq<char>, from: int, needle: Seq<char>)
    requires
        0 <= from,
    ensures
        match found_from(s, from, needle) {
            Some(i) => {
                &&& from <= i && i + needle.len() <= s.len()
                &&& s.subrange(i, i + needle.len()) == needle
                &&& forall|j: int|
                    from <= j < i ==> #[trigger] s.subrange(j, j + needle.len()) != needle
            },
            None => forall|j: int|
                from <= j && j + needle.len() <= s.len() ==> #[trigger] s.subrange(
                    j,
                    j + needle.len(),
                ) != needle,
        },
    decreases s.len() + 1 - from,
{
    lemma_found_from(s, from, needle);
    if from + needle.len() <= s.len() && s.subrange(from, from + needle.len()) != needle {
        what_is_found_is_the_first(s, from + 1, needle);
    }
}

/// A text holds another where it has something before it and something after it, both maybe empty.
pub proof fn holding_is_standing_within(a: Seq<char>, needle: Seq<char>, b: Seq<char>)
    ensures
        holds(a + needle + b, needle),
        begins(needle + b, needle),
        past(needle + b, needle) == Some(b),
        ends(a + needle, needle),
{
    let s = a + needle + b;
    assert(s.subrange(a.len() as int, a.len() as int + needle.len()) =~= needle);
    what_is_found_is_the_first(s, 0, needle);
    assert((needle + b).take(needle.len() as int) =~= needle);
    assert((needle + b).subrange(0, needle.len() as int) =~= needle);
    assert((needle + b).skip(needle.len() as int) =~= b);
    assert((a + needle).skip((a + needle).len() - needle.len()) =~= needle);
}

/// The pieces between one character and the next hold none of it, and put together again with it
/// between them they are the text.
pub proof fn pieces_put_together_are_the_text(s: Seq<char>, c: char)
    ensures
        split_on(s, c).len() > 0,
        forall|k: int, i: int|
            0 <= k < split_on(s, c).len() && 0 <= i < split_on(s, c)[k].len()
                ==> #[trigger] split_on(s, c)[k][i] != c,
        together(split_on(s, c), c) == s,
    decreases s.len(),
{
    lemma_position_found(s, c);
    let i = position_of(s, c);
    let all = split_on(s, c);
    if i < s.len() {
        let rest = s.skip(i + 1);
        pieces_put_together_are_the_text(rest, c);
        let tail = split_on(rest, c);
        assert(all == seq![s.take(i)] + tail);
        assert forall|k: int, j: int| 0 <= k < all.len() && 0 <= j < all[k].len() implies #[trigger] all[k][j]
            != c by {
            if k > 0 {
                assert(all[k] == tail[k - 1]);
                assert(tail[k - 1][j] != c);
            }
        }
        assert(all.skip(1) =~= tail);
        assert(together(all, c) =~= s.take(i) + seq![c] + rest);
        assert(s =~= s.take(i) + seq![c] + rest);
    } else {
        assert(all =~= seq![s]);
        assert(together(all, c) =~= s);
    }
}

/// Some texts with a character between one and the next.
pub open spec fn together(v: Seq<Seq<char>>, c: char) -> Seq<char>
    decreases v.len(),
{
    if v.len() == 0 {
        seq![]
    } else if v.len() == 1 {
        v[0]
    } else {
        v[0] + seq![c] + together(v.skip(1), c)
    }
}

/// Some texts one after another.
pub open spec fn one_after_another(v: Seq<Seq<char>>) -> Seq<char>
    decreases v.len(),
{
    if v.len() == 0 {
        seq![]
    } else {
        v[0] + one_after_another(v.skip(1))
    }
}

/// The lines of a text, with what ends them, are the text; a newline ends each but the last, and
/// stands nowhere else.
pub proof fn lines_one_after_another_are_the_text(s: Seq<char>)
    ensures
        one_after_another(raw_lines(s)) == s,
        forall|k: int|
            0 <= k < raw_lines(s).len() ==> (#[trigger] raw_lines(s)[k]).len() > 0,
        forall|k: int|
            0 <= k < raw_lines(s).len() - 1 ==> (#[trigger] raw_lines(s)[k]).last() == '\n',
        forall|k: int, i: int|
            0 <= k < raw_lines(s).len() && 0 <= i < raw_lines(s)[k].len() - 1
                ==> #[trigger] raw_lines(s)[k][i] != '\n',
    decreases s.len(),
{
    if s.len() > 0 {
        lemma_position_found(s, '\n');
        let i = position_of(s, '\n');
        let all = raw_lines(s);
        if i < s.len() {
            let rest = s.skip(i + 1);
            lines_one_after_another_are_the_text(rest);
            let tail = raw_lines(rest);
            assert(all == seq![s.take(i + 1)] + tail);
            assert(all.skip(1) =~= tail);
            assert(s =~= s.take(i + 1) + rest);
            assert forall|k: int, j: int|
                0 <= k < all.len() && 0 <= j < all[k].len() - 1 implies #[trigger] all[k][j]
                != '\n' by {
                if k > 0 {
                    assert(all[k] == tail[k - 1]);
                    assert(tail[k - 1][j] != '\n');
                }
            }
            assert forall|k: int| 0 <= k < all.len() implies (#[trigger] all[k]).len() > 0 by {
                if k > 0 {
                    assert(all[k] == tail[k - 1]);
                }
            }
            assert forall|k: int| 0 <= k < all.len() - 1 implies (#[trigger] all[k]).last()
                == '\n' by {
                if k > 0 {
                    assert(all[k] == tail[k - 1]);
                }
            }
        } else {
            assert(all =~= seq![s]);
            assert(all.skip(1) =~= seq![]);
            reveal_with_fuel(one_after_another, 2);
            assert(one_after_another(all) =~= s);
        }
    }
}

/// A line is what stands before its newline, whether or not a carriage return stands there too, and
/// one line more comes of each newline with something after it.
pub proof fn a_line_is_what_stands_before_its_end(line: Seq<char>, rest: Seq<char>)
    requires
        forall|i: int| 0 <= i < line.len() ==> #[trigger] line[i] != '\n' && line[i] != '\r',
    ensures
        lines_of(line + seq!['\n'] + rest) == seq![line] + lines_of(rest),
        lines_of(line + seq!['\r', '\n'] + rest) == seq![line] + lines_of(rest),
        line.len() > 0 ==> lines_of(line) == seq![line],
        lines_of(Seq::<char>::empty()).len() == 0,
{
    let n = line.len() as int;
    let a = line + seq!['\n'] + rest;
    assert forall|j: int| 0 <= j < n implies #[trigger] a[j] != '\n' by {
        assert(a[j] == line[j]);
    }
    crate::text::lemma_position(a, '\n', n);
    assert(a.take(n + 1) =~= line + seq!['\n']);
    assert(a.skip(n + 1) =~= rest);
    assert((line + seq!['\n']).drop_last() =~= line);
    if n > 0 {
        assert(line[n - 1] != '\r');
    }
    assert(lines_of(a) =~= seq![line] + lines_of(rest));
    let b = line + seq!['\r', '\n'] + rest;
    assert forall|j: int| 0 <= j < n + 1 implies #[trigger] b[j] != '\n' by {
        if j < n {
            assert(b[j] == line[j]);
        }
    }
    crate::text::lemma_position(b, '\n', n + 1);
    assert(b.take(n + 2) =~= line + seq!['\r', '\n']);
    assert(b.skip(n + 2) =~= rest);
    assert((line + seq!['\r', '\n']).drop_last() =~= line + seq!['\r']);
    assert((line + seq!['\r']).drop_last() =~= line);
    assert(lines_of(b) =~= seq![line] + lines_of(rest));
    if n > 0 {
        crate::text::lemma_position(line, '\n', n);
        assert(lines_of(line) =~= seq![line]);
    }
    assert(lines_of(Seq::<char>::empty()) =~= seq![]);
}

/// Replacing leaves a text alone that holds nothing to replace, and otherwise puts the one in the
/// place of the other, from the front on.
pub proof fn replacing_changes_only_what_is_replaced(
    a: Seq<char>,
    pat: Seq<char>,
    by: Seq<char>,
    b: Seq<char>,
)
    requires
        pat.len() > 0,
        forall|j: int|
            0 <= j < a.len() ==> !begins(#[trigger] (a + pat + b).skip(j), pat) && !begins(
                a.skip(j),
                pat,
            ),
    ensures
        replaced(a, pat, by) == a,
        replaced(a + pat + b, pat, by) == a + by + replaced(b, pat, by),
    decreases a.len(),
{
    let s = a + pat + b;
    if a.len() == 0 {
        assert(s =~= pat + b);
        assert(s.take(pat.len() as int) =~= pat);
        assert(s.skip(pat.len() as int) =~= b);
        assert(replaced(s, pat, by) =~= a + by + replaced(b, pat, by));
        assert(replaced(a, pat, by) =~= a);
    } else {
        let t = a.skip(1);
        assert(s.skip(0) =~= s);
        assert(a.skip(0) =~= a);
        assert(!begins(s.skip(0), pat));
        assert(s.skip(1) =~= t + pat + b);
        assert forall|j: int| 0 <= j < t.len() implies !begins(#[trigger] (t + pat + b).skip(j), pat)
            && !begins(t.skip(j), pat) by {
            assert((t + pat + b).skip(j) =~= s.skip(j + 1));
            assert(t.skip(j) =~= a.skip(j + 1));
            assert(!begins(s.skip(j + 1), pat));
        }
        replacing_changes_only_what_is_replaced(t, pat, by, b);
        assert(replaced(s, pat, by) =~= a + by + replaced(b, pat, by));
        assert(replaced(a, pat, by) =~= a);
    }
}

/// Joining puts one separator between each text and the next, and none at either end.
pub proof fn joining_separates_each_from_the_next(v: Seq<Seq<char>>, last: Seq<char>, sep: Seq<char>)
    ensures
        joined_with(Seq::<Seq<char>>::empty(), sep).len() == 0,
        joined_with(seq![last], sep) == last,
        v.len() > 0 ==> joined_with(v.push(last), sep) == joined_with(v, sep) + sep + last,
{
    assert(v.push(last).drop_last() =~= v);
}

/// The number that some figures write.
pub open spec fn number_written(s: Seq<char>) -> int
    decreases s.len(),
{
    if s.len() == 0 {
        0
    } else {
        10 * number_written(s.drop_last()) + (s.last() as int - '0' as int)
    }
}

/// A number in figures is figures and nothing else, with none to spare in front, and they write that
/// number.
pub proof fn figures_write_the_number(n: nat)
    ensures
        number_written(decimal(n)) == n,
        decimal(n).len() > 0,
        forall|i: int| 0 <= i < decimal(n).len() ==> '0' <= #[trigger] decimal(n)[i] <= '9',
        n > 0 ==> decimal(n)[0] != '0',
        n == 0 ==> decimal(n) == seq!['0'],
    decreases n,
{
    if n < 10 {
        let one = seq![digit(n)];
        assert(one.drop_last() =~= seq![]);
        reveal_with_fuel(number_written, 2);
    } else {
        figures_write_the_number(n / 10);
        let d = decimal(n);
        assert(d.drop_last() =~= decimal(n / 10));
        assert(d[0] == decimal(n / 10)[0]);
    }
}

/// Two numbers in the same figures are the same number.
pub proof fn figures_tell_numbers_apart(a: nat, b: nat)
    ensures
        (decimal(a) == decimal(b)) == (a == b),
{
    figures_write_the_number(a);
    figures_write_the_number(b);
}

/// Lower case changes the twenty-six capitals, each to the letter that goes with it, and nothing
/// else.
pub proof fn lower_case_changes_capitals_alone(s: Seq<char>)
    ensures
        lower(s).len() == s.len(),
        forall|i: int|
            0 <= i < s.len() ==> if 'A' <= s[i] <= 'Z' {
                (#[trigger] lower(s)[i]) as int == s[i] as int + 32
            } else {
                lower(s)[i] == s[i]
            },
{
}

} // verus!
