//! One line at a time: fences, headings, rules, quotes, list items and prose.

use crate::markdown::inline::{lemma_marked, lemma_row_after, mark_since, row_after};
use crate::markdown::model::{
    all_are, bare, heading_of, indented_of, inline_of, is_fence, is_figure, is_heading, is_rule,
    item_of, join, language, line_of, marked, moved, plain, quote_of, repeated, spaces, Run, Span,
};
use crate::markdown::{spans, Mark};
use crate::text::{
    begins, bytes_in, lemma_after_lead, lemma_before_tail, lemma_bytes_concat, lemma_lead_stop,
    lemma_trim_blank, push_chars, starts_with, string_of, trim, trim_end, trim_start, width_in_bytes,
};
use vstd::prelude::*;
use vstd::slice::slice_subrange;

verus! {

/// A line without the newline that ends it.
pub fn strip_newline(line: &[char]) -> (r: &[char])
    ensures
        r@ == bare(line@),
{
    let mut i: usize = line.len();
    while i > 0 && (line[i - 1] == '\n' || line[i - 1] == '\r')
        invariant
            i <= line@.len(),
            forall|j: int|
                i <= j < line@.len() ==> (#[trigger] line@[j] == '\n' || line@[j] == '\r'),
        decreases i,
    {
        i = i - 1;
    }
    proof {
        lemma_before_tail(line@, |c: char| c == '\n' || c == '\r', i as int);
        assert(line@.take(i as int) =~= line@.subrange(0, i as int));
    }
    slice_subrange(line, 0, i)
}

/// Whether a line opens or closes a fence.
pub fn fence_marker(line: &[char]) -> (r: bool)
    ensures
        r == is_fence(line@),
{
    let t = trim_start(line);
    let ticks = ['`', '`', '`'];
    let tildes = ['~', '~', '~'];
    assert(ticks@ =~= seq!['`', '`', '`']);
    assert(tildes@ =~= seq!['~', '~', '~']);
    starts_with(t, ticks.as_slice()) || starts_with(t, tildes.as_slice())
}

/// What a fence says it holds.
pub fn fence_language(line: &[char]) -> (r: &[char])
    ensures
        r@ == language(line@),
{
    let t = trim_start(line);
    let mut i: usize = 0;
    while i < t.len() && (t[i] == '`' || t[i] == '~')
        invariant
            i <= t@.len(),
            forall|j: int| 0 <= j < i ==> (#[trigger] t@[j] == '`' || t@[j] == '~'),
        decreases t@.len() - i,
    {
        i = i + 1;
    }
    proof {
        lemma_after_lead(t@, |c: char| c == '`' || c == '~', i as int);
        assert(t@.skip(i as int) =~= t@.subrange(i as int, t@.len() as int));
    }
    trim(slice_subrange(t, i, t.len()))
}

/// Whether a text is one character over and over.
pub fn only(s: &[char], c: char) -> (r: bool)
    ensures
        r == all_are(s@, c),
{
    let mut i: usize = 0;
    while i < s.len()
        invariant
            i <= s@.len(),
            forall|j: int| 0 <= j < i ==> #[trigger] s@[j] == c,
        decreases s@.len() - i,
    {
        if s[i] != c {
            return false;
        }
        i = i + 1;
    }
    true
}

/// Whether a line is a thematic break.
pub fn rule(line: &[char]) -> (r: bool)
    ensures
        r == is_rule(line@),
{
    let t = trim_end(line);
    t.len() >= 3 && (only(t, '-') || only(t, '*') || only(t, '_'))
}

/// The text of an ATX heading, if this is one.
pub fn heading(line: &[char]) -> (r: Option<&[char]>)
    ensures
        match r {
            Some(rest) => heading_of(line@) == Some(rest@),
            None => heading_of(line@) is None,
        },
{
    let mut hashes: usize = 0;
    while hashes < line.len() && line[hashes] == '#'
        invariant
            hashes <= line@.len(),
            forall|j: int| 0 <= j < hashes ==> #[trigger] line@[j] == '#',
        decreases line@.len() - hashes,
    {
        hashes = hashes + 1;
    }
    let after = slice_subrange(line, hashes, line.len());
    proof {
        lemma_after_lead(line@, |c: char| c == '#', hashes as int);
        assert(line@.skip(hashes as int) =~= after@);
    }
    if hashes < 1 || hashes > 6 {
        return None;
    }
    let rest = trim_start(after);
    if rest.len() == 0 {
        None
    } else {
        Some(rest)
    }
}

/// The text of a quotation, if this is one.
pub fn quote(line: &[char]) -> (r: Option<&[char]>)
    ensures
        match r {
            Some(rest) => quote_of(line@) == Some(rest@),
            None => quote_of(line@) is None,
        },
{
    let spaced = ['>', ' '];
    let close = ['>'];
    assert(spaced@ =~= seq!['>', ' ']);
    assert(close@ =~= seq!['>']);
    if starts_with(line, spaced.as_slice()) {
        let rest = slice_subrange(line, 2, line.len());
        assert(rest@ =~= line@.skip(2));
        Some(rest)
    } else if starts_with(line, close.as_slice()) {
        let rest = slice_subrange(line, 1, line.len());
        assert(rest@ =~= line@.skip(1));
        Some(rest)
    } else {
        None
    }
}

fn lead_of_two(line: &[char], a: char, b: char) -> (r: bool)
    ensures
        r == begins(line@, seq![a, b]),
{
    let lead = [a, b];
    assert(lead@ =~= seq![a, b]);
    starts_with(line, lead.as_slice())
}

/// The bullet to draw and the text after it, if this is a list item. A number is kept: it is
/// information, unlike a bullet character.
pub fn list_item(line: &[char]) -> (r: Option<(String, &[char])>)
    ensures
        match r {
            Some((marker, rest)) => item_of(line@) == Some((marker@, rest@)),
            None => item_of(line@) is None,
        },
{
    if lead_of_two(line, '-', ' ') || lead_of_two(line, '*', ' ') || lead_of_two(line, '+', ' ') {
        let mut marker = String::new();
        marker.push('\u{2022}');
        marker.push(' ');
        let rest = slice_subrange(line, 2, line.len());
        assert(marker@ =~= seq!['\u{2022}', ' ']);
        assert(rest@ =~= line@.skip(2));
        return Some((marker, rest));
    }
    let mut figures: usize = 0;
    while figures < line.len() && '0' <= line[figures] && line[figures] <= '9'
        invariant
            figures <= line@.len(),
            forall|j: int| 0 <= j < figures ==> is_figure(#[trigger] line@[j]),
        decreases line@.len() - figures,
    {
        figures = figures + 1;
    }
    let rest = slice_subrange(line, figures, line.len());
    proof {
        lemma_after_lead(line@, |c: char| is_figure(c), figures as int);
        assert(line@.skip(figures as int) =~= rest@);
    }
    if 1 <= figures && figures <= 9 && (lead_of_two(rest, '.', ' ') || lead_of_two(rest, ')', ' ')) {
        let mut marker = string_of(slice_subrange(line, 0, figures));
        marker.push('.');
        marker.push(' ');
        let after = slice_subrange(rest, 2, rest.len());
        assert(marker@ =~= line@.take(figures as int) + seq!['.', ' ']);
        assert(after@ =~= rest@.skip(2));
        return Some((marker, after));
    }
    None
}

/// Put so many of one character at the end of a text.
pub fn push_repeated(text: &mut String, c: char, n: usize)
    ensures
        final(text)@ == old(text)@ + repeated(c, n as nat),
{
    let ghost before = text@;
    let mut i: usize = 0;
    assert(before + repeated(c, 0) =~= before);
    while i < n
        invariant
            i <= n,
            text@ == before + repeated(c, i as nat),
        decreases n - i,
    {
        text.push(c);
        i = i + 1;
        assert(before + repeated(c, i as nat) =~= (before + repeated(c, (i - 1) as nat)).push(c));
    }
}

/// Put so many spaces at the end of a text.
pub fn push_spaces(text: &mut String, n: usize)
    ensures
        final(text)@ == old(text)@ + spaces(n as nat),
{
    push_repeated(text, ' ', n);
    assert(repeated(' ', n as nat) =~= spaces(n as nat));
}

/// The code on an indented line, if this is one. A list item is not code however far it is indented.
pub fn indented(line: &[char]) -> (r: Option<&[char]>)
    ensures
        match r {
            Some(code) => indented_of(line@) == Some(code@),
            None => indented_of(line@) is None,
        },
{
    let trimmed = trim_start(line);
    proof {
        lemma_trim_blank(line@);
    }
    if trimmed.len() == 0 || list_item(trimmed).is_some() {
        return None;
    }
    let n = line.len();
    if n >= 4 && line[0] == ' ' && line[1] == ' ' && line[2] == ' ' && line[3] == ' ' {
        let code = slice_subrange(line, 4, n);
        assert(line@.take(4) =~= seq![' ', ' ', ' ', ' ']);
        assert(code@ =~= line@.skip(4));
        return Some(code);
    }
    proof {
        if begins(line@, seq![' ', ' ', ' ', ' ']) {
            assert(line@.take(4)[0] == ' ' && line@.take(4)[1] == ' ' && line@.take(4)[2] == ' '
                && line@.take(4)[3] == ' ');
        }
    }
    if line[0] == '\t' {
        let code = slice_subrange(line, 1, n);
        assert(line@.take(1) =~= seq!['\t']);
        assert(code@ =~= line@.skip(1));
        return Some(code);
    }
    proof {
        if begins(line@, seq!['\t']) {
            assert(line@.take(1)[0] == '\t');
        }
    }
    None
}

/// Whether a line outside a fence is drawn as a heading.
pub fn is_title(line: &[char]) -> (r: bool)
    ensures
        r == is_heading(line@),
{
    let trimmed = trim_start(line);
    indented(line).is_none() && !rule(trimmed) && heading(trimmed).is_some()
}

/// A row begun with some text and no marks is that text.
pub proof fn lemma_row_begun(text0: Seq<char>, marks: Seq<Span>, text: Seq<char>, row: int, a: Seq<char>)
    requires
        text == text0 + a,
    ensures
        row_after(text0, marks, text, marks, row, plain(a)),
{
    assert(moved(plain(a).marks, row, width_in_bytes(text0) as int) =~= seq![]);
    assert(marks =~= marks + Seq::<Span>::empty());
}

/// A row that started out empty holds its run and nothing else.
pub proof fn lemma_row_whole(marks0: Seq<Span>, text: Seq<char>, marks: Seq<Span>, row: int, run: Run)
    requires
        row_after(seq![], marks0, text, marks, row, run),
    ensures
        text == run.text,
        marks == marks0 + moved(run.marks, row, 0),
{
    assert(Seq::<char>::empty() + run.text =~= run.text);
}

/// One line that is neither fenced nor part of a table: its block shape, then its inline runs.
pub fn render_block_line(line: &[char], row: usize, marks: &mut Vec<Mark>) -> (r: String)
    ensures
        r@ == line_of(line@).text,
        spans(final(marks)@) == spans(old(marks)@) + moved(line_of(line@).marks, row as int, 0),
{
    let trimmed = trim_start(line);
    let mut text = String::new();
    let ghost marks0 = spans(marks@);
    let ghost empty: Seq<char> = seq![];
    assert(text@ =~= empty);

    if let Some(code) = indented(line) {
        push_spaces(&mut text, 2);
        push_chars(&mut text, code);
        proof {
            let body = spaces(2) + code@;
            assert(text@ =~= empty + body);
            lemma_row_begun(empty, marks0, text@, row as int, body);
            lemma_marked(empty, marks0, text@, marks0, row as int, plain(body), "Markdown.Code");
        }
        mark_since(row, 0, "Markdown.Code", &text, marks);
        proof {
            lemma_row_whole(marks0, text@, spans(marks@), row as int, line_of(line@));
        }
        return text;
    }

    // A thematic break, at a fixed width that nothing will wrap: a rule that wraps is two rules.
    if rule(trimmed) {
        push_spaces(&mut text, 2);
        push_repeated(&mut text, '\u{2500}', 8);
        proof {
            let body = spaces(2) + repeated('\u{2500}', 8);
            assert(text@ =~= empty + body);
            lemma_row_begun(empty, marks0, text@, row as int, body);
            lemma_marked(empty, marks0, text@, marks0, row as int, plain(body), "Markdown.Rule");
        }
        mark_since(row, 0, "Markdown.Rule", &text, marks);
        proof {
            lemma_row_whole(marks0, text@, spans(marks@), row as int, line_of(line@));
        }
        return text;
    }

    // The hashes go: they were the markup, and a terminal can show a heading.
    if let Some(rest) = heading(trimmed) {
        crate::markdown::inline::inline(rest, row, &mut text, marks);
        proof {
            lemma_marked(empty, marks0, text@, spans(marks@), row as int, inline_of(rest@), "Markdown.Heading");
        }
        mark_since(row, 0, "Markdown.Heading", &text, marks);
        proof {
            lemma_row_whole(marks0, text@, spans(marks@), row as int, line_of(line@));
        }
        return text;
    }

    let ghost k = lemma_lead_stop(line@, |c: char| crate::text::is_white(c));
    let lead = string_of(slice_subrange(line, 0, line.len() - trimmed.len()));
    let indent = bytes_in(lead.as_str());
    proof {
        assert(lead@ =~= line@.take(k));
        lemma_bytes_concat(lead@, trimmed@);
        assert(lead@ + trimmed@ =~= line@);
    }
    push_spaces(&mut text, indent);
    let ghost pad = spaces(indent as nat);
    proof {
        assert(text@ =~= empty + pad);
        lemma_row_begun(empty, marks0, text@, row as int, pad);
    }

    if let Some(rest) = quote(trimmed) {
        let ghost text1 = text@;
        let from = bytes_in(text.as_str());
        text.push('\u{2502}');
        text.push(' ');
        proof {
            let bar = seq!['\u{2502}', ' '];
            assert(text@ =~= text1 + bar);
            lemma_row_begun(text1, marks0, text@, row as int, bar);
            lemma_marked(text1, marks0, text@, marks0, row as int, plain(bar), "Markdown.Quote");
        }
        mark_since(row, from, "Markdown.Quote", &text, marks);
        let ghost text2 = text@;
        let ghost marks2 = spans(marks@);
        let ghost lead_run = join(plain(pad), marked(plain(seq!['\u{2502}', ' ']), "Markdown.Quote"));
        proof {
            lemma_row_after(empty, marks0, text1, marks0, text2, marks2, row as int, plain(pad),
                marked(plain(seq!['\u{2502}', ' ']), "Markdown.Quote"));
        }
        crate::markdown::inline::inline(rest, row, &mut text, marks);
        proof {
            lemma_row_after(empty, marks0, text2, marks2, text@, spans(marks@), row as int, lead_run, inline_of(rest@));
            lemma_row_whole(marks0, text@, spans(marks@), row as int, line_of(line@));
        }
        return text;
    }

    if let Some((marker, rest)) = list_item(trimmed) {
        push_spaces(&mut text, 2);
        let ghost pad2 = spaces(indent as nat + 2);
        proof {
            assert(text@ =~= empty + pad2);
            lemma_row_begun(empty, marks0, text@, row as int, pad2);
        }
        let ghost text1 = text@;
        let from = bytes_in(text.as_str());
        text.push_str(marker.as_str());
        proof {
            lemma_row_begun(text1, marks0, text@, row as int, marker@);
            lemma_marked(text1, marks0, text@, marks0, row as int, plain(marker@), "Markdown.Bullet");
        }
        mark_since(row, from, "Markdown.Bullet", &text, marks);
        let ghost text2 = text@;
        let ghost marks2 = spans(marks@);
        let ghost lead_run = join(plain(pad2), marked(plain(marker@), "Markdown.Bullet"));
        proof {
            lemma_row_after(empty, marks0, text1, marks0, text2, marks2, row as int, plain(pad2),
                marked(plain(marker@), "Markdown.Bullet"));
        }
        crate::markdown::inline::inline(rest, row, &mut text, marks);
        proof {
            lemma_row_after(empty, marks0, text2, marks2, text@, spans(marks@), row as int, lead_run, inline_of(rest@));
            lemma_row_whole(marks0, text@, spans(marks@), row as int, line_of(line@));
        }
        return text;
    }

    let ghost text1 = text@;
    crate::markdown::inline::inline(trimmed, row, &mut text, marks);
    proof {
        lemma_row_after(empty, marks0, text1, marks0, text@, spans(marks@), row as int, plain(pad), inline_of(trimmed@));
        lemma_row_whole(marks0, text@, spans(marks@), row as int, line_of(line@));
    }
    text
}

} // verus!
