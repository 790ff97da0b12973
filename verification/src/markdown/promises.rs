//! What each kind of markup is drawn as: the words that are kept, the markers that go, and the
//! colours that take their place.

use crate::markdown::laws::one_shot_draws_the_whole_text;
use crate::markdown::model::{
    bare, block, block_len, draw, heading_of, indented_of, inline_of, is_fence, is_figure, is_rule,
    is_table, item_of, join, language, line_of, marked, nothing, opens_italic, plain, quote_of,
    repeated, single, spaces, stack, token, Run, Span,
};
use crate::markdown::rendered;
use crate::markdown::stacking::lemma_stack_nothing;
use crate::text::{
    begins, found_from, is_blank, is_white, lemma_after_lead, lemma_before_tail, lemma_bytes_concat,
    lemma_position, lemma_tail_stop, raw_lines, trim_end_of, trim_start_of, width_in_bytes,
};
use vstd::prelude::*;

verus! {

// ---- inside a line ----------------------------------------------------------

/// Whether something stands at a place in a text.
pub open spec fn is_at(s: Seq<char>, at: int, needle: Seq<char>) -> bool {
    s.subrange(at, at + needle.len()) == needle
}

/// The first place where something is found.
pub proof fn lemma_found_at(s: Seq<char>, from: int, needle: Seq<char>, at: int)
    requires
        0 <= from <= at,
        at + needle.len() <= s.len(),
        is_at(s, at, needle),
        forall|j: int| from <= j < at ==> !#[trigger] is_at(s, j, needle),
    ensures
        found_from(s, from, needle) == Some(at),
    decreases at - from,
{
    if from < at {
        assert(!is_at(s, from, needle));
        lemma_found_at(s, from + 1, needle, at);
    }
}

/// The first place where a character is found.
proof fn lemma_found_char(s: Seq<char>, from: int, c: char, at: int)
    requires
        0 <= from <= at < s.len(),
        s[at] == c,
        forall|j: int| from <= j < at ==> #[trigger] s[j] != c,
    ensures
        found_from(s, from, seq![c]) == Some(at),
{
    let one = seq![c];
    assert(s.subrange(at, at + 1) =~= one);
    assert forall|j: int| from <= j < at implies !#[trigger] is_at(s, j, one) by {
        assert(s.subrange(j, j + 1)[0] == s[j]);
    }
    lemma_found_at(s, from, one, at);
}

/// The first place where a doubled character is found.
proof fn lemma_found_pair(s: Seq<char>, from: int, c: char, at: int)
    requires
        0 <= from <= at,
        at + 2 <= s.len(),
        s[at] == c && s[at + 1] == c,
        forall|j: int| from <= j < at ==> #[trigger] s[j] != c,
    ensures
        found_from(s, from, seq![c, c]) == Some(at),
{
    let two = seq![c, c];
    assert(s.subrange(at, at + 2) =~= two);
    assert forall|j: int| from <= j < at implies !#[trigger] is_at(s, j, two) by {
        assert(s.subrange(j, j + 2)[0] == s[j]);
    }
    lemma_found_at(s, from, two, at);
}

/// A character that begins no markup.
pub open spec fn is_word_char(c: char) -> bool {
    c != '`' && c != '~' && c != '*' && c != '_' && c != '['
}

/// Text without a character that could begin markup.
pub open spec fn is_unmarked(s: Seq<char>) -> bool {
    forall|i: int| 0 <= i < s.len() ==> is_word_char(#[trigger] s[i])
}

/// Whether a text holds a character.
pub open spec fn lacks(s: Seq<char>, c: char) -> bool {
    forall|i: int| 0 <= i < s.len() ==> #[trigger] s[i] != c
}

/// Whether `r` begins with `text` coloured as `group`, and goes on with what `rest` is drawn as.
pub open spec fn opens_coloured(r: Run, text: Seq<char>, group: &'static str, rest: Run) -> bool {
    &&& r.text == text + rest.text
    &&& exists|i: int|
        0 <= i < r.marks.len() && #[trigger] r.marks[i] == (Span {
            row: 0,
            from: 0,
            to: width_in_bytes(text) as int,
            group,
        })
    &&& rest.marks.len() <= r.marks.len()
    &&& forall|i: int|
        0 <= i < rest.marks.len() ==> {
            let m = #[trigger] rest.marks[i];
            r.marks[r.marks.len() - rest.marks.len() + i] == (Span {
                row: m.row,
                from: m.from + width_in_bytes(text),
                to: m.to + width_in_bytes(text),
                group: m.group,
            })
        }
}

proof fn lemma_opens_coloured(a: Run, group: &'static str, rest: Run)
    ensures
        opens_coloured(join(marked(a, group), rest), a.text, group, rest),
{
    let r = join(marked(a, group), rest);
    assert(r.marks[a.marks.len() as int] == (Span {
        row: 0,
        from: 0,
        to: width_in_bytes(a.text) as int,
        group,
    }));
}

/// Words are drawn as they stand: text without a marker in it loses nothing, and nothing on it is
/// coloured.
pub proof fn plain_words_are_drawn_as_they_stand(s: Seq<char>)
    requires
        is_unmarked(s),
    ensures
        inline_of(s).text == s,
        inline_of(s).marks.len() == 0,
    decreases s.len(),
{
    if s.len() > 0 {
        assert(is_word_char(s[0]));
        lemma_plain_front(s);
        assert forall|i: int| 0 <= i < s.skip(1).len() implies is_word_char(
            #[trigger] s.skip(1)[i],
        ) by {
            assert(is_word_char(s[i + 1]));
        }
        plain_words_are_drawn_as_they_stand(s.skip(1));
        assert(inline_of(s).text =~= s);
    }
}

proof fn lemma_plain_front(s: Seq<char>)
    requires
        s.len() > 0,
        is_word_char(s[0]),
    ensures
        token(s) is Plain,
{
    if begins(s, seq!['~', '~']) {
        assert(s.take(2)[0] == '~');
    }
    if begins(s, seq!['*', '*']) {
        assert(s.take(2)[0] == '*');
    }
}

/// Words before some markup are drawn as they stand, and the markup after them as if it stood alone.
pub proof fn words_come_before_what_follows_them(w: Seq<char>, rest: Seq<char>)
    requires
        is_unmarked(w),
    ensures
        inline_of(w + rest).text == w + inline_of(rest).text,
        inline_of(w + rest).marks.len() == inline_of(rest).marks.len(),
        forall|i: int|
            0 <= i < inline_of(rest).marks.len() ==> (#[trigger] inline_of(w + rest).marks[i])
                == (Span {
                row: inline_of(rest).marks[i].row,
                from: inline_of(rest).marks[i].from + width_in_bytes(w),
                to: inline_of(rest).marks[i].to + width_in_bytes(w),
                group: inline_of(rest).marks[i].group,
            }),
    decreases w.len(),
{
    let s = w + rest;
    let none: Seq<char> = seq![];
    lemma_bytes_concat(none, none);
    assert(none + none =~= none);
    if w.len() == 0 {
        assert(s =~= rest);
        assert(w =~= none);
        assert(w + inline_of(rest).text =~= inline_of(rest).text);
    } else {
        assert(s[0] == w[0]);
        assert(is_word_char(w[0]));
        lemma_plain_front(s);
        let less = w.skip(1);
        assert forall|i: int| 0 <= i < less.len() implies is_word_char(#[trigger] less[i]) by {
            assert(is_word_char(w[i + 1]));
        }
        assert(s.skip(1) =~= less + rest);
        words_come_before_what_follows_them(less, rest);
        let one = seq![w[0]];
        assert(w =~= one + less);
        lemma_bytes_concat(one, less);
        assert(inline_of(s).text =~= w + inline_of(rest).text);
    }
}

/// What is between back-ticks is drawn verbatim and coloured as code, whatever it holds.
pub proof fn code_is_drawn_verbatim(c: Seq<char>, rest: Seq<char>)
    requires
        lacks(c, '`'),
    ensures
        opens_coloured(
            inline_of(seq!['`'] + c + seq!['`'] + rest),
            c,
            "Markdown.Code",
            inline_of(rest),
        ),
{
    let s = seq!['`'] + c + seq!['`'] + rest;
    let e = c.len() as int + 1;
    assert forall|j: int| 1 <= j < e implies #[trigger] s[j] != '`' by {
        assert(s[j] == c[j - 1]);
    }
    lemma_found_char(s, 1, '`', e);
    assert(s.subrange(1, e) =~= c);
    assert(s.skip(e + 1) =~= rest);
    lemma_opens_coloured(plain(c), "Markdown.Code", inline_of(rest));
}

/// What is between doubled asterisks is drawn without them, in bold.
pub proof fn bold_loses_its_markers(b: Seq<char>, rest: Seq<char>)
    requires
        lacks(b, '*'),
    ensures
        opens_coloured(
            inline_of(seq!['*', '*'] + b + seq!['*', '*'] + rest),
            inline_of(b).text,
            "Markdown.Bold",
            inline_of(rest),
        ),
{
    let s = seq!['*', '*'] + b + seq!['*', '*'] + rest;
    let e = b.len() as int + 2;
    assert(s[0] == '*' && s[1] == '*');
    assert(s.take(2) =~= seq!['*', '*']);
    if begins(s, seq!['~', '~']) {
        assert(s.take(2)[0] == '~');
    }
    assert forall|j: int| 2 <= j < e implies #[trigger] s[j] != '*' by {
        assert(s[j] == b[j - 2]);
    }
    lemma_found_pair(s, 2, '*', e);
    assert(s.subrange(2, e) =~= b);
    assert(s.skip(e + 2) =~= rest);
    lemma_opens_coloured(inline_of(b), "Markdown.Bold", inline_of(rest));
}

/// What is between doubled tildes is drawn without them, struck out.
pub proof fn what_is_struck_out_loses_its_markers(b: Seq<char>, rest: Seq<char>)
    requires
        lacks(b, '~'),
    ensures
        opens_coloured(
            inline_of(seq!['~', '~'] + b + seq!['~', '~'] + rest),
            inline_of(b).text,
            "Markdown.Strike",
            inline_of(rest),
        ),
{
    let s = seq!['~', '~'] + b + seq!['~', '~'] + rest;
    let e = b.len() as int + 2;
    assert(s[0] == '~' && s[1] == '~');
    assert(s.take(2) =~= seq!['~', '~']);
    assert forall|j: int| 2 <= j < e implies #[trigger] s[j] != '~' by {
        assert(s[j] == b[j - 2]);
    }
    lemma_found_pair(s, 2, '~', e);
    assert(s.subrange(2, e) =~= b);
    assert(s.skip(e + 2) =~= rest);
    lemma_opens_coloured(inline_of(b), "Markdown.Strike", inline_of(rest));
}

/// What is between single asterisks, or single underscores, is drawn without them, in italics.
pub proof fn italics_lose_their_markers(c: char, b: Seq<char>, rest: Seq<char>)
    requires
        c == '*' || c == '_',
        b.len() > 0,
        !is_white(b[0]),
        lacks(b, c),
    ensures
        opens_coloured(
            inline_of(seq![c] + b + seq![c] + rest),
            inline_of(b).text,
            "Markdown.Italic",
            inline_of(rest),
        ),
{
    let s = seq![c] + b + seq![c] + rest;
    let e = b.len() as int + 1;
    assert(s[0] == c && s[1] == b[0] && b[0] != c);
    if begins(s, seq!['~', '~']) {
        assert(s.take(2)[0] == '~');
    }
    if begins(s, seq!['*', '*']) {
        assert(s.take(2)[0] == '*' && s.take(2)[1] == '*');
    }
    if begins(s, seq!['_', '_']) {
        assert(s.take(2)[0] == '_' && s.take(2)[1] == '_');
    }
    assert(opens_italic(s));
    assert forall|j: int| 1 <= j < e implies #[trigger] s[j] != c by {
        assert(s[j] == b[j - 1]);
    }
    lemma_found_char(s, 1, c, e);
    assert(s.subrange(1, e) =~= b);
    assert(s.skip(e + 1) =~= rest);
    lemma_opens_coloured(inline_of(b), "Markdown.Italic", inline_of(rest));
}

/// A link is drawn as its label, and where it leads is not.
pub proof fn a_link_is_drawn_as_its_label(label: Seq<char>, to: Seq<char>, rest: Seq<char>)
    requires
        lacks(label, ']'),
        lacks(to, ')'),
    ensures
        opens_coloured(
            inline_of(seq!['['] + label + seq![']', '('] + to + seq![')'] + rest),
            label,
            "Markdown.Link",
            inline_of(rest),
        ),
{
    let s = seq!['['] + label + seq![']', '('] + to + seq![')'] + rest;
    let close = label.len() as int + 1;
    let e = close + 2 + to.len();
    assert(s[0] == '[');
    if begins(s, seq!['~', '~']) {
        assert(s.take(2)[0] == '~');
    }
    if begins(s, seq!['*', '*']) {
        assert(s.take(2)[0] == '*');
    }
    assert forall|j: int| 1 <= j < close implies #[trigger] s[j] != ']' by {
        assert(s[j] == label[j - 1]);
    }
    lemma_found_char(s, 1, ']', close);
    assert(s[close + 1] == '(');
    assert forall|j: int| close + 2 <= j < e implies #[trigger] s[j] != ')' by {
        assert(s[j] == to[j - close - 2]);
    }
    assert(s[e] == ')');
    lemma_found_char(s, close + 2, ')', e);
    assert(s.subrange(1, close) =~= label);
    assert(s.skip(e + 1) =~= rest);
    lemma_opens_coloured(plain(label), "Markdown.Link", inline_of(rest));
}

// ---- a line -----------------------------------------------------------------

proof fn lemma_trimmed(n: nat, t: Seq<char>)
    requires
        t.len() > 0,
        !is_white(t[0]),
    ensures
        trim_start_of(spaces(n) + t) == t,
        width_in_bytes(spaces(n) + t) == n + width_in_bytes(t),
        n < 4 ==> indented_of(spaces(n) + t) is None,
        item_of(t) is Some ==> indented_of(spaces(n) + t) is None,
        !is_blank(spaces(n) + t),
{
    let s = spaces(n) + t;
    assert forall|j: int| 0 <= j < n implies is_white(#[trigger] s[j]) by {
        assert(s[j] == ' ');
    }
    assert(s[n as int] == t[0]);
    lemma_after_lead(s, |c: char| is_white(c), n as int);
    assert(s.skip(n as int) =~= t);
    lemma_bytes_concat(spaces(n), t);
    lemma_spaces_width(n);
    if n < 4 {
        if begins(s, seq![' ', ' ', ' ', ' ']) {
            assert(s.take(4)[n as int] == ' ');
        }
        if begins(s, seq!['\t']) {
            assert(s.take(1)[0] == '\t');
        }
    }
}

proof fn lemma_spaces_width(n: nat)
    ensures
        width_in_bytes(spaces(n)) == n,
    decreases n,
{
    let none: Seq<char> = seq![];
    if n == 0 {
        assert(spaces(0) =~= none);
        lemma_bytes_concat(none, none);
        assert(none + none =~= none);
    } else {
        lemma_spaces_width((n - 1) as nat);
        let one: Seq<char> = seq![' '];
        assert(spaces(n) =~= spaces((n - 1) as nat) + one);
        lemma_bytes_concat(spaces((n - 1) as nat), one);
        assert(width_in_bytes(one) == 1) by {
            reveal_with_fuel(vstd::utf8::encode_utf8, 2);
            assert(one.drop_first() =~= none);
        }
    }
}

proof fn lemma_not_rule(t: Seq<char>)
    requires
        t.len() > 0,
        !is_white(t[0]),
        !(t[0] == '-' || t[0] == '*' || t[0] == '_'),
    ensures
        !is_rule(t),
{
    let i = lemma_tail_stop(t, |c: char| is_white(c));
    let u = trim_end_of(t);
    if u.len() >= 3 {
        assert(u[0] == t[0]);
    }
}

proof fn lemma_no_heading(t: Seq<char>)
    requires
        t.len() > 0,
        t[0] != '#',
    ensures
        heading_of(t) is None,
{
    lemma_after_lead(t, |c: char| c == '#', 0);
    assert(t.skip(0) =~= t);
}

proof fn lemma_begins_char(t: Seq<char>, c: char)
    requires
        t.len() > 0,
    ensures
        begins(t, seq![c]) == (t[0] == c),
{
    if t[0] == c {
        assert(t.take(1) =~= seq![c]);
    }
    if begins(t, seq![c]) {
        assert(t.take(1)[0] == c);
    }
}

/// A quotation keeps its words: what follows the marker, and one space where there is one, is what is
/// quoted.
pub proof fn a_quotation_is_what_follows_its_marker(line: Seq<char>, t: Seq<char>)
    ensures
        quote_of(seq!['>', ' '] + t) == Some(t),
        t.len() == 0 || t[0] != ' ' ==> quote_of(seq!['>'] + t) == Some(t),
        (quote_of(line) is Some) == (line.len() > 0 && line[0] == '>'),
{
    let a = seq!['>', ' '] + t;
    assert(a.take(2) =~= seq!['>', ' ']);
    assert(a.skip(2) =~= t);
    let b = seq!['>'] + t;
    assert(b.take(1) =~= seq!['>']);
    assert(b.skip(1) =~= t);
    if begins(b, seq!['>', ' ']) {
        assert(b.take(2)[1] == t[0]);
        assert(b.take(2)[1] == ' ');
    }
    if line.len() > 0 {
        lemma_begins_char(line, '>');
        if begins(line, seq!['>', ' ']) {
            assert(line.take(2)[0] == '>');
        }
    }
}

/// A quotation is drawn behind a bar, with all its words: the bar stands where the marker stood, in
/// the colour of quotations, and what was quoted follows it as it would be drawn alone.
pub proof fn a_quotation_is_drawn_behind_a_bar(n: nat, t: Seq<char>)
    requires
        n < 4,
    ensures
        ({
            let r = line_of(spaces(n) + seq!['>', ' '] + t);
            &&& r.text == spaces(n) + seq!['\u{2502}', ' '] + inline_of(t).text
            &&& r.marks.len() == 1 + inline_of(t).marks.len()
            &&& r.marks[0].group == "Markdown.Quote"
            &&& r.marks[0].from == n
            &&& r.marks[0].to == n + width_in_bytes(seq!['\u{2502}', ' '])
        }),
{
    let q = seq!['>', ' '] + t;
    assert(spaces(n) + seq!['>', ' '] + t =~= spaces(n) + q);
    lemma_trimmed(n, q);
    lemma_not_rule(q);
    lemma_no_heading(q);
    a_quotation_is_what_follows_its_marker(q, t);
    lemma_spaces_width(n);
    assert(line_of(spaces(n) + q).text =~= spaces(n) + seq!['\u{2502}', ' '] + inline_of(t).text);
}

/// A heading loses its hashes, up to six of them, and keeps its words; the whole row is coloured.
pub proof fn a_heading_loses_its_hashes(h: nat, k: nat, t: Seq<char>)
    requires
        h > 0,
        t.len() > 0,
        !is_white(t[0]),
        t[0] != '#',
    ensures
        ({
            let line = repeated('#', h) + spaces(k) + t;
            let r = line_of(line);
            if h <= 6 {
                &&& r.text == inline_of(t).text
                &&& r.marks.len() == inline_of(t).marks.len() + 1
                &&& r.marks.last() == (Span {
                    row: 0,
                    from: 0,
                    to: width_in_bytes(r.text) as int,
                    group: "Markdown.Heading",
                })
            } else {
                r.text == inline_of(line).text && r.marks == inline_of(line).marks
            }
        }),
{
    let line = repeated('#', h) + spaces(k) + t;
    let after = spaces(k) + t;
    assert(line =~= repeated('#', h) + after);
    assert(line[0] == '#');
    assert(spaces(0) + line =~= line);
    lemma_trimmed(0, line);
    lemma_not_rule(line);
    assert forall|j: int| 0 <= j < h implies #[trigger] line[j] == '#' by {}
    assert(after[0] != '#') by {
        if k > 0 {
            assert(after[0] == ' ');
        } else {
            assert(after[0] == t[0]);
        }
    }
    assert(line[h as int] == after[0]);
    lemma_after_lead(line, |c: char| c == '#', h as int);
    assert(line.skip(h as int) =~= after);
    lemma_trimmed(k, t);
    if h > 6 {
        lemma_begins_char(line, '>');
        assert(quote_of(line) is None) by {
            if begins(line, seq!['>', ' ']) {
                assert(line.take(2)[0] == '>');
            }
        }
        lemma_no_item(line);
        let r = line_of(line);
        let none: Seq<char> = seq![];
        assert(spaces(0) =~= none);
        lemma_spaces_width(0);
        assert(r.text =~= inline_of(line).text);
        assert(r.marks =~= inline_of(line).marks);
    }
}

/// What can begin a list item.
pub open spec fn is_item_char(c: char) -> bool {
    c == '-' || c == '*' || c == '+' || is_figure(c)
}

proof fn lemma_no_item(t: Seq<char>)
    requires
        t.len() > 0,
        !is_item_char(t[0]),
    ensures
        item_of(t) is None,
{
    if begins(t, seq!['-', ' ']) {
        assert(t.take(2)[0] == '-');
    }
    if begins(t, seq!['*', ' ']) {
        assert(t.take(2)[0] == '*');
    }
    if begins(t, seq!['+', ' ']) {
        assert(t.take(2)[0] == '+');
    }
    lemma_after_lead(t, |c: char| is_figure(c), 0);
    assert(t.skip(0) =~= t);
}

/// Whether `m` is drawn before the words of an item: two spaces in, coloured as a bullet.
pub open spec fn is_item_row(r: Run, n: nat, m: Seq<char>, t: Seq<char>) -> bool {
    &&& r.text == spaces(n + 2) + m + inline_of(t).text
    &&& r.marks.len() == 1 + inline_of(t).marks.len()
    &&& r.marks[0].group == "Markdown.Bullet"
    &&& r.marks[0].from == n + 2
    &&& r.marks[0].to == n + 2 + width_in_bytes(m)
}

/// A list item keeps its words behind a bullet, however far it is indented.
pub proof fn a_list_item_is_drawn_behind_a_bullet(n: nat, c: char, t: Seq<char>)
    requires
        c == '-' || c == '*' || c == '+',
    ensures
        is_item_row(line_of(spaces(n) + seq![c, ' '] + t), n, seq!['\u{2022}', ' '], t),
{
    let q = seq![c, ' '] + t;
    assert(spaces(n) + seq![c, ' '] + t =~= spaces(n) + q);
    assert(q.take(2) =~= seq![c, ' ']);
    assert(q.skip(2) =~= t);
    assert(item_of(q) == Some((seq!['\u{2022}', ' '], t)));
    lemma_trimmed(n, q);
    lemma_item_no_rule(q);
    lemma_item_row(n, q, seq!['\u{2022}', ' '], t);
}

/// A second character that is a space makes no rule.
proof fn lemma_item_no_rule(q: Seq<char>)
    requires
        q.len() >= 2,
        exists|i: int| 0 <= i < 2 && #[trigger] q[i] == ' ',
    ensures
        !is_rule(q),
{
    let i = lemma_tail_stop(q, |c: char| is_white(c));
    let u = trim_end_of(q);
    if u.len() >= 3 {
        assert(u[0] == q[0] && u[1] == q[1]);
    }
}

proof fn lemma_item_row(n: nat, q: Seq<char>, m: Seq<char>, t: Seq<char>)
    requires
        q.len() > 0,
        !is_white(q[0]),
        is_item_char(q[0]),
        !is_rule(q),
        item_of(q) == Some((m, t)),
    ensures
        is_item_row(line_of(spaces(n) + q), n, m, t),
{
    lemma_trimmed(n, q);
    lemma_no_heading(q);
    lemma_begins_char(q, '>');
    assert(quote_of(q) is None) by {
        if begins(q, seq!['>', ' ']) {
            assert(q.take(2)[0] == '>');
        }
    }
    lemma_spaces_width(n + 2);
    assert(line_of(spaces(n) + q).text =~= spaces(n + 2) + m + inline_of(t).text);
}

/// A numbered item keeps its number, and its words behind it.
pub proof fn a_numbered_item_keeps_its_number(n: nat, f: Seq<char>, c: char, t: Seq<char>)
    requires
        1 <= f.len() <= 9,
        forall|i: int| 0 <= i < f.len() ==> is_figure(#[trigger] f[i]),
        c == '.' || c == ')',
    ensures
        is_item_row(line_of(spaces(n) + f + seq![c, ' '] + t), n, f + seq!['.', ' '], t),
{
    let q = f + seq![c, ' '] + t;
    assert(spaces(n) + f + seq![c, ' '] + t =~= spaces(n) + q);
    assert(q[0] == f[0]);
    assert(is_figure(f[0]));
    assert(!is_white(q[0]));
    lemma_not_rule(q);
    let k = f.len() as int;
    assert forall|j: int| 0 <= j < k implies is_figure(#[trigger] q[j]) by {
        assert(q[j] == f[j]);
    }
    assert(q[k] == c);
    lemma_after_lead(q, |x: char| is_figure(x), k);
    let rest = q.skip(k);
    assert(rest =~= seq![c, ' '] + t);
    assert(rest.take(2) =~= seq![c, ' ']);
    assert(rest.skip(2) =~= t);
    assert(q.take(k) =~= f);
    if begins(q, seq!['-', ' ']) {
        assert(q.take(2)[0] == '-');
    }
    if begins(q, seq!['*', ' ']) {
        assert(q.take(2)[0] == '*');
    }
    if begins(q, seq!['+', ' ']) {
        assert(q.take(2)[0] == '+');
    }
    assert(item_of(q) == Some((f + seq!['.', ' '], t)));
    lemma_item_row(n, q, f + seq!['.', ' '], t);
}

/// A line of nothing but three or more of one of three characters is a rule across the transcript,
/// and a line with anything else on it is not one.
pub proof fn a_rule_is_a_row_of_its_own(c: char, n: nat, line: Seq<char>)
    requires
        c == '-' || c == '*' || c == '_',
        n >= 3,
    ensures
        line_of(repeated(c, n)).text == spaces(2) + repeated('\u{2500}', 8),
        line_of(repeated(c, n)).marks.len() == 1,
        line_of(repeated(c, n)).marks[0].group == "Markdown.Rule",
        forall|i: int|
            0 <= i < line.len() && !is_white(#[trigger] line[i]) && line[i] != '-' && line[i] != '*'
                && line[i] != '_' ==> !is_rule(line),
{
    let q = repeated(c, n);
    assert(spaces(0) + q =~= q);
    assert(q[0] == c && q[1] == c);
    lemma_trimmed(0, q);
    lemma_before_tail(q, |x: char| is_white(x), n as int);
    assert(q.take(n as int) =~= q);
    assert(trim_end_of(q) == q);
    let k = lemma_tail_stop(line, |x: char| is_white(x));
    assert forall|i: int|
        0 <= i < line.len() && !is_white(#[trigger] line[i]) && line[i] != '-' && line[i] != '*'
            && line[i] != '_' implies !is_rule(line) by {
        let u = trim_end_of(line);
        assert(i < k);
        assert(u[i] == line[i]);
    }
}

/// Code that is indented is drawn verbatim, in the colour of code.
pub proof fn indented_code_is_drawn_verbatim(t: Seq<char>)
    requires
        !is_blank(t),
        item_of(trim_start_of(spaces(4) + t)) is None,
        item_of(trim_start_of(seq!['\t'] + t)) is None,
    ensures
        line_of(spaces(4) + t).text == spaces(2) + t,
        line_of(seq!['\t'] + t).text == spaces(2) + t,
        line_of(spaces(4) + t).marks == seq![
            Span {
                row: 0,
                from: 0,
                to: width_in_bytes(spaces(2) + t) as int,
                group: "Markdown.Code",
            },
        ],
        line_of(seq!['\t'] + t).marks == line_of(spaces(4) + t).marks,
{
    let a = spaces(4) + t;
    let b = seq!['\t'] + t;
    let i = choose|i: int| 0 <= i < t.len() && !is_white(#[trigger] t[i]);
    assert(a[i + 4] == t[i]);
    assert(b[i + 1] == t[i]);
    assert(a.take(4) =~= seq![' ', ' ', ' ', ' ']);
    assert(a.skip(4) =~= t);
    assert(b.take(1) =~= seq!['\t']);
    assert(b.skip(1) =~= t);
    if begins(b, seq![' ', ' ', ' ', ' ']) {
        assert(b.take(4)[0] == ' ');
    }
    let want = seq![
        Span {
            row: 0,
            from: 0,
            to: width_in_bytes(spaces(2) + t) as int,
            group: "Markdown.Code",
        },
    ];
    assert(line_of(a).marks =~= want);
    assert(line_of(b).marks =~= want);
}

/// Prose is drawn where it stands: its indent, and its words as markup inside a line has them.
pub proof fn prose_keeps_its_indent_and_its_words(n: nat, t: Seq<char>)
    requires
        n < 4,
        t.len() > 0,
        !is_white(t[0]),
        t[0] != '#' && t[0] != '>' && t[0] != '_',
        !is_item_char(t[0]),
    ensures
        line_of(spaces(n) + t).text == spaces(n) + inline_of(t).text,
        line_of(spaces(n) + t).marks.len() == inline_of(t).marks.len(),
        is_unmarked(t) ==> line_of(spaces(n) + t).text == spaces(n) + t && line_of(
            spaces(n) + t,
        ).marks.len() == 0,
{
    lemma_trimmed(n, t);
    lemma_not_rule(t);
    lemma_no_heading(t);
    lemma_no_item(t);
    lemma_begins_char(t, '>');
    assert(quote_of(t) is None) by {
        if begins(t, seq!['>', ' ']) {
            assert(t.take(2)[0] == '>');
        }
    }
    if is_unmarked(t) {
        plain_words_are_drawn_as_they_stand(t);
    }
}

// ---- a text -----------------------------------------------------------------

/// A line that ends nothing and opens no fence is one row: what [`line_of`] makes of it.
pub proof fn one_line_is_one_row(line: Seq<char>)
    requires
        line.len() > 0,
        lacks(line, '\n'),
        lacks(line, '\r'),
        !is_fence(line),
    ensures
        rendered(line).rows == seq![line_of(line).text],
        rendered(line).marks == line_of(line).marks,
{
    one_shot_draws_the_whole_text(line);
    lemma_position(line, '\n', line.len() as int);
    let ls = raw_lines(line);
    assert(ls =~= seq![line]);
    lemma_before_tail(line, |c: char| c == '\n' || c == '\r', line.len() as int);
    assert(line.take(line.len() as int) =~= line);
    assert(bare(line) == line);
    assert(block_len(ls, false) == 1);
    assert(ls.skip(1) =~= seq![]);
    let b = block(ls, false);
    assert(draw(ls.skip(1), b.fence) == nothing(b.fence));
    lemma_stack_nothing(b, b.fence);
}

/// The rows that some lines of code are drawn as: each verbatim, two spaces in.
pub open spec fn code_rows(ls: Seq<Seq<char>>) -> Seq<Seq<char>> {
    ls.map_values(|l: Seq<char>| spaces(2) + bare(l))
}

proof fn lemma_code(ls: Seq<Seq<char>>, close: Seq<char>)
    requires
        forall|i: int| 0 <= i < ls.len() ==> !is_fence(bare(#[trigger] ls[i])),
        is_fence(bare(close)),
    ensures
        draw(ls.push(close), true).rows == code_rows(ls),
        !draw(ls.push(close), true).fence,
        forall|i: int|
            0 <= i < draw(ls.push(close), true).marks.len() ==> (#[trigger] draw(
                ls.push(close),
                true,
            ).marks[i]).group == "Markdown.Code",
        draw(ls.push(close), true).marks.len() == ls.len(),
    decreases ls.len(),
{
    let all = ls.push(close);
    if ls.len() == 0 {
        assert(all.skip(1) =~= seq![]);
        let b = block(all, true);
        assert(draw(all.skip(1), b.fence) == nothing(b.fence));
        lemma_stack_nothing(b, b.fence);
        assert(code_rows(ls) =~= seq![]);
    } else {
        let rest = ls.skip(1);
        assert(all[0] == ls[0]);
        assert(!is_fence(bare(ls[0])));
        assert(all.skip(1) =~= rest.push(close));
        assert forall|i: int| 0 <= i < rest.len() implies !is_fence(bare(#[trigger] rest[i])) by {
            assert(rest[i] == ls[i + 1]);
        }
        lemma_code(rest, close);
        let d = draw(all, true);
        let below = draw(rest.push(close), true);
        assert(d == stack(single(ls[0], true), below));
        assert(d.rows =~= code_rows(ls));
        assert forall|i: int| 0 <= i < d.marks.len() implies (#[trigger] d.marks[i]).group
            == "Markdown.Code" by {
            if i > 0 {
                assert(below.marks[i - 1].group == "Markdown.Code");
            }
        }
    }
}

/// Code between fences is drawn verbatim, line by line, whatever it looks like, all of it in the
/// colour of code; the fences themselves are not drawn, but for the language one names.
pub proof fn fenced_code_is_drawn_verbatim(open: Seq<char>, ls: Seq<Seq<char>>, close: Seq<char>)
    requires
        is_fence(bare(open)),
        is_fence(bare(close)),
        forall|i: int| 0 <= i < ls.len() ==> !is_fence(bare(#[trigger] ls[i])),
        crate::markdown::model::cells_of(open) is None,
    ensures
        ({
            let d = draw(seq![open] + ls.push(close), false);
            let named = language(bare(open)).len() > 0;
            &&& !d.fence
            &&& d.rows == (if named {
                seq![spaces(2) + language(bare(open))]
            } else {
                seq![]
            }) + code_rows(ls)
            &&& d.marks.len() == d.rows.len()
            &&& forall|i: int|
                0 <= i < d.marks.len() ==> (#[trigger] d.marks[i]).group == (if named && i == 0 {
                    "Markdown.Fence"
                } else {
                    "Markdown.Code"
                })
        }),
{
    let all = seq![open] + ls.push(close);
    lemma_code(ls, close);
    assert(all.skip(1) =~= ls.push(close));
    assert(all[0] == open);
    assert(!is_table(all));
    let b = block(all, false);
    let below = draw(ls.push(close), true);
    assert(b.fence);
    let d = draw(all, false);
    assert(d == stack(b, below));
    let named = language(bare(open)).len() > 0;
    assert(d.rows =~= (if named {
        seq![spaces(2) + language(bare(open))]
    } else {
        seq![]
    }) + code_rows(ls));
    assert forall|i: int| 0 <= i < d.marks.len() implies (#[trigger] d.marks[i]).group == (if named
        && i == 0 {
        "Markdown.Fence"
    } else {
        "Markdown.Code"
    }) by {
        if i >= b.marks.len() {
            assert(below.marks[i - b.marks.len()].group == "Markdown.Code");
        }
    }
}

/// A fence is three back-ticks or three tildes, with nothing but an indent before them, and what is
/// written after them names what it holds.
pub proof fn a_fence_is_three_of_a_kind(n: nat, c: char, lang: Seq<char>)
    requires
        c == '`' || c == '~',
        lang.len() > 0 ==> !is_white(lang[0]) && !is_white(lang.last()) && lang[0] != '`' && lang[0]
            != '~',
    ensures
        is_fence(spaces(n) + seq![c, c, c] + lang),
        language(spaces(n) + seq![c, c, c] + lang) == lang,
        forall|s: Seq<char>|
            s.len() > 0 && !is_white(s[0]) && s[0] != '`' && s[0] != '~' ==> !#[trigger] is_fence(s),
{
    let t = seq![c, c, c] + lang;
    assert(spaces(n) + seq![c, c, c] + lang =~= spaces(n) + t);
    lemma_trimmed(n, t);
    assert(t.take(3) =~= seq![c, c, c]);
    assert forall|j: int| 0 <= j < 3 implies (#[trigger] t[j] == '`' || t[j] == '~') by {}
    lemma_after_lead(t, |x: char| x == '`' || x == '~', 3);
    assert(t.skip(3) =~= lang);
    lemma_after_lead(lang, |x: char| is_white(x), 0);
    assert(lang.skip(0) =~= lang);
    lemma_before_tail(lang, |x: char| is_white(x), lang.len() as int);
    assert(lang.take(lang.len() as int) =~= lang);
    assert forall|s: Seq<char>|
        s.len() > 0 && !is_white(s[0]) && s[0] != '`' && s[0] != '~' implies !#[trigger] is_fence(
        s,
    ) by {
        lemma_after_lead(s, |x: char| is_white(x), 0);
        assert(s.skip(0) =~= s);
        if begins(s, seq!['`', '`', '`']) {
            assert(s.take(3)[0] == '`');
        }
        if begins(s, seq!['~', '~', '~']) {
            assert(s.take(3)[0] == '~');
        }
    }
}

} // verus!
