//! Inline runs: code, bold, italic, strikethrough, links.

use crate::markdown::model::{
    inline_of, is_ascii_white, join, marked, moved, plain, token, Run, Span, Token,
};
use crate::markdown::{spans, Mark};
use crate::text::{bytes_in, find_from, lemma_bytes_concat, push_chars, starts_with, width_in_bytes};
use vstd::prelude::*;
use vstd::slice::slice_subrange;

verus! {

pub proof fn lemma_moved_concat(a: Seq<Span>, b: Seq<Span>, rows: int, cols: int)
    ensures
        moved(a + b, rows, cols) == moved(a, rows, cols) + moved(b, rows, cols),
{
    assert(moved(a + b, rows, cols) =~= moved(a, rows, cols) + moved(b, rows, cols));
}

pub proof fn lemma_moved_twice(a: Seq<Span>, r1: int, c1: int, r2: int, c2: int)
    ensures
        moved(moved(a, r1, c1), r2, c2) == moved(a, r1 + r2, c1 + c2),
{
    assert(moved(moved(a, r1, c1), r2, c2) =~= moved(a, r1 + r2, c1 + c2));
}

pub proof fn lemma_moved_nowhere(a: Seq<Span>)
    ensures
        moved(a, 0, 0) == a,
{
    assert(moved(a, 0, 0) =~= a);
}

/// It does not matter in what order runs are put together.
pub proof fn lemma_join_assoc(a: Run, b: Run, c: Run)
    ensures
        join(join(a, b), c) == join(a, join(b, c)),
{
    let l = join(join(a, b), c);
    let r = join(a, join(b, c));
    assert(l.text =~= r.text);
    lemma_bytes_concat(a.text, b.text);
    let wa = width_in_bytes(a.text) as int;
    let wb = width_in_bytes(b.text) as int;
    lemma_moved_concat(b.marks, moved(c.marks, 0, wb), 0, wa);
    lemma_moved_twice(c.marks, 0, wb, 0, wa);
    assert(l.marks =~= r.marks);
}

pub proof fn lemma_join_empty(a: Run)
    ensures
        join(a, plain(seq![])) == a,
        join(plain(seq![]), a) == a,
{
    assert(join(a, plain(seq![])).text =~= a.text);
    assert(join(a, plain(seq![])).marks =~= a.marks);
    assert(join(plain(seq![]), a).text =~= a.text);
    lemma_moved_nowhere(a.marks);
    assert(join(plain(seq![]), a).marks =~= a.marks);
}

/// The row that is being written, once `run` has been put after what was there before.
pub open spec fn row_after(
    text0: Seq<char>,
    marks0: Seq<Span>,
    text: Seq<char>,
    marks: Seq<Span>,
    row: int,
    run: Run,
) -> bool {
    &&& text == text0 + run.text
    &&& marks == marks0 + moved(run.marks, row, width_in_bytes(text0) as int)
}

pub proof fn lemma_row_after(
    text0: Seq<char>,
    marks0: Seq<Span>,
    text1: Seq<char>,
    marks1: Seq<Span>,
    text2: Seq<char>,
    marks2: Seq<Span>,
    row: int,
    a: Run,
    b: Run,
)
    requires
        row_after(text0, marks0, text1, marks1, row, a),
        row_after(text1, marks1, text2, marks2, row, b),
    ensures
        row_after(text0, marks0, text2, marks2, row, join(a, b)),
{
    lemma_bytes_concat(text0, a.text);
    let w0 = width_in_bytes(text0) as int;
    let wa = width_in_bytes(a.text) as int;
    lemma_moved_concat(a.marks, moved(b.marks, 0, wa), row, w0);
    lemma_moved_twice(b.marks, 0, wa, row, w0);
    assert(text2 =~= text0 + join(a, b).text);
    assert(marks2 =~= marks0 + moved(join(a, b).marks, row, w0));
}

/// Put one more mark on what was written to the row since it was `from` bytes long.
pub fn mark_since(row: usize, from: usize, group: &'static str, text: &String, marks: &mut Vec<Mark>)
    ensures
        spans(final(marks)@) == spans(old(marks)@).push(
            Span {
                row: row as int,
                from: from as int,
                to: width_in_bytes(text@) as int,
                group,
            },
        ),
{
    let to = bytes_in(text.as_str());
    marks.push((row, from, to, group));
    proof {
        assert(spans(marks@) =~= spans(old(marks)@).push(
            Span { row: row as int, from: from as int, to: to as int, group },
        ));
    }
}

pub proof fn lemma_marked(
    text0: Seq<char>,
    marks0: Seq<Span>,
    text1: Seq<char>,
    marks1: Seq<Span>,
    row: int,
    a: Run,
    group: &'static str,
)
    requires
        row_after(text0, marks0, text1, marks1, row, a),
    ensures
        row_after(
            text0,
            marks0,
            text1,
            marks1.push(
                Span {
                    row,
                    from: width_in_bytes(text0) as int,
                    to: width_in_bytes(text1) as int,
                    group,
                },
            ),
            row,
            marked(a, group),
        ),
{
    lemma_bytes_concat(text0, a.text);
    let w0 = width_in_bytes(text0) as int;
    assert(marks1.push(
        Span { row, from: w0, to: width_in_bytes(text1) as int, group },
    ) =~= marks0 + moved(marked(a, group).marks, row, w0));
}

/// Put some characters on the row as they are.
pub fn write_plain(s: &[char], row: usize, text: &mut String, marks: &Vec<Mark>)
    ensures
        row_after(
            old(text)@,
            spans(marks@),
            final(text)@,
            spans(marks@),
            row as int,
            plain(s@),
        ),
{
    push_chars(text, s);
    proof {
        assert(moved(plain(s@).marks, row as int, width_in_bytes(old(text)@) as int) =~= seq![]);
        assert(spans(marks@) =~= spans(marks@) + Seq::<Span>::empty());
    }
}

fn is_ascii_space(c: char) -> (r: bool)
    ensures
        r == is_ascii_white(c),
{
    c == ' ' || c == '\t' || c == '\n' || c == '\u{c}' || c == '\r'
}

/// What stands at the front of some text, as the executable side holds it.
#[derive(Clone, Copy)]
pub enum Front {
    Code(usize),
    Strike(usize),
    Bold(usize),
    Italic(usize),
    Link(usize, usize),
    Plain,
}

pub open spec fn front_is(f: Front, t: Token) -> bool {
    match f {
        Front::Code(e) => t == Token::Code(e as int),
        Front::Strike(e) => t == Token::Strike(e as int),
        Front::Bold(e) => t == Token::Bold(e as int),
        Front::Italic(e) => t == Token::Italic(e as int),
        Front::Link(c, e) => t == Token::Link(c as int, e as int),
        Front::Plain => t == Token::Plain,
    }
}

/// What comes first in some text.
fn front(s: &[char]) -> (r: Front)
    requires
        s@.len() > 0,
    ensures
        front_is(r, token(s@)),
        match r {
            Front::Code(e) => 1 <= e < s@.len(),
            Front::Strike(e) => 2 <= e && e + 2 <= s@.len(),
            Front::Bold(e) => 2 <= e && e + 2 <= s@.len(),
            Front::Italic(e) => 1 <= e < s@.len(),
            Front::Link(c, e) => 1 <= c < e < s@.len(),
            Front::Plain => true,
        },
{
    // Code first: nothing inside back-ticks is markup, which is the whole point of them.
    if s[0] == '`' {
        let tick = ['`'];
        let found = find_from(s, 1, tick.as_slice());
        assert(tick@ =~= seq!['`']);
        if let Some(e) = found {
            return Front::Code(e);
        }
    }
    let tildes = ['~', '~'];
    assert(tildes@ =~= seq!['~', '~']);
    if starts_with(s, tildes.as_slice()) {
        if let Some(e) = find_from(s, 2, tildes.as_slice()) {
            return Front::Strike(e);
        }
    }
    let stars = ['*', '*'];
    assert(stars@ =~= seq!['*', '*']);
    let doubled = starts_with(s, stars.as_slice());
    if doubled {
        if let Some(e) = find_from(s, 2, stars.as_slice()) {
            return Front::Bold(e);
        }
    }
    // A single one only when it is not half of a doubled one, and not a bare one with a space
    // after it, which is far more often multiplication than emphasis.
    let lows = ['_', '_'];
    assert(lows@ =~= seq!['_', '_']);
    if (s[0] == '*' || s[0] == '_') && !doubled && !starts_with(s, lows.as_slice()) && s.len() > 1
        && !is_ascii_space(s[1]) {
        let one = [s[0]];
        let found = find_from(s, 1, one.as_slice());
        assert(one@ =~= seq![s@[0]]);
        if let Some(e) = found {
            return Front::Italic(e);
        }
    }
    if s[0] == '[' {
        let square = [']'];
        let found = find_from(s, 1, square.as_slice());
        assert(square@ =~= seq![']']);
        if let Some(close) = found {
            if close + 1 < s.len() && s[close + 1] == '(' {
                let round = [')'];
                let ended = find_from(s, close + 2, round.as_slice());
                assert(round@ =~= seq![')']);
                if let Some(e) = ended {
                    return Front::Link(close, e);
                }
            }
        }
    }
    Front::Plain
}

/// Write some inline text at the end of a row: the markers go, and what they meant becomes marks.
pub fn inline(s: &[char], row: usize, text: &mut String, marks: &mut Vec<Mark>)
    ensures
        row_after(
            old(text)@,
            spans(old(marks)@),
            final(text)@,
            spans(final(marks)@),
            row as int,
            inline_of(s@),
        ),
    decreases s@.len(),
{
    let mut i: usize = 0;
    let ghost text0 = text@;
    let ghost marks0 = spans(marks@);
    let ghost mut done: Run = plain(seq![]);
    proof {
        assert(moved(done.marks, row as int, width_in_bytes(text0) as int) =~= seq![]);
        assert(text0 =~= text0 + done.text);
        assert(marks0 =~= marks0 + Seq::<Span>::empty());
        assert(s@.skip(0) =~= s@);
        lemma_join_empty(inline_of(s@));
    }
    while i < s.len()
        invariant
            i <= s@.len(),
            row_after(text0, marks0, text@, spans(marks@), row as int, done),
            join(done, inline_of(s@.skip(i as int))) == inline_of(s@),
        decreases s@.len() - i,
    {
        let rest = slice_subrange(s, i, s.len());
        let ghost r = s@.skip(i as int);
        assert(rest@ =~= r);
        let ghost text1 = text@;
        let ghost marks1 = spans(marks@);
        let ghost piece: Run;
        let from = bytes_in(text.as_str());
        let step: usize;
        match front(rest) {
            Front::Code(e) => {
                let inner = slice_subrange(rest, 1, e);
                write_plain(inner, row, text, marks);
                proof {
                    lemma_marked(text1, marks1, text@, spans(marks@), row as int, plain(inner@), "Markdown.Code");
                    piece = marked(plain(inner@), "Markdown.Code");
                }
                mark_since(row, from, "Markdown.Code", text, marks);
                step = e + 1;
            },
            Front::Strike(e) => {
                let inner = slice_subrange(rest, 2, e);
                inline(inner, row, text, marks);
                proof {
                    lemma_marked(text1, marks1, text@, spans(marks@), row as int, inline_of(inner@), "Markdown.Strike");
                    piece = marked(inline_of(inner@), "Markdown.Strike");
                }
                mark_since(row, from, "Markdown.Strike", text, marks);
                step = e + 2;
            },
            Front::Bold(e) => {
                let inner = slice_subrange(rest, 2, e);
                inline(inner, row, text, marks);
                proof {
                    lemma_marked(text1, marks1, text@, spans(marks@), row as int, inline_of(inner@), "Markdown.Bold");
                    piece = marked(inline_of(inner@), "Markdown.Bold");
                }
                mark_since(row, from, "Markdown.Bold", text, marks);
                step = e + 2;
            },
            Front::Italic(e) => {
                let inner = slice_subrange(rest, 1, e);
                inline(inner, row, text, marks);
                proof {
                    lemma_marked(text1, marks1, text@, spans(marks@), row as int, inline_of(inner@), "Markdown.Italic");
                    piece = marked(inline_of(inner@), "Markdown.Italic");
                }
                mark_since(row, from, "Markdown.Italic", text, marks);
                step = e + 1;
            },
            Front::Link(close, e) => {
                let inner = slice_subrange(rest, 1, close);
                write_plain(inner, row, text, marks);
                proof {
                    lemma_marked(text1, marks1, text@, spans(marks@), row as int, plain(inner@), "Markdown.Link");
                    piece = marked(plain(inner@), "Markdown.Link");
                }
                mark_since(row, from, "Markdown.Link", text, marks);
                step = e + 1;
            },
            Front::Plain => {
                let inner = slice_subrange(rest, 0, 1);
                write_plain(inner, row, text, marks);
                proof {
                    assert(inner@ =~= seq![r[0]]);
                    piece = plain(seq![r[0]]);
                }
                step = 1;
            },
        }
        proof {
            assert(inline_of(r) == join(piece, inline_of(r.skip(step as int))));
            assert(r.skip(step as int) =~= s@.skip(i + step));
            lemma_row_after(text0, marks0, text1, marks1, text@, spans(marks@), row as int, done, piece);
            lemma_join_assoc(done, piece, inline_of(r.skip(step as int)));
            done = join(done, piece);
        }
        i = i + step;
    }
    proof {
        assert(s@.skip(i as int) =~= seq![]);
        lemma_join_empty(done);
    }
}

} // verus!
