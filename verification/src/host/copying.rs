//! What is copied out of the transcript, and what is said of it.

use crate::host::screen::{Mark, Screen, Shown};
use crate::host::view::{
    code_block_at, copied, copied_said, in_block, is_block, say_copied, yank_rows,
};
use crate::text::{bytes_in, is_blank, same_text, texts, width_in_bytes};
use crate::words::{concat, joined_with};
use vstd::prelude::*;

verus! {

// ---- code -------------------------------------------------------------------

/// Whether a mark colours the whole of a row as code. A part of one is back-ticks in a sentence, and
/// not a block to take away.
pub open spec fn covers(m: Mark, row: int, line: Seq<char>) -> bool {
    m.row == row && m.hl@ == "Markdown.Code"@ && (match m.span {
        Some((from, to)) => from == 0 && to == width_in_bytes(line),
        None => false,
    })
}

/// Whether a row is code. It is read off the marks rather than off the text: the back-ticks are gone
/// by the time there is a row.
pub open spec fn is_code_row(s: Shown, row: int) -> bool {
    s.lines[row].len() > 0 && exists|i: int|
        0 <= i < s.marks.len() && covers(#[trigger] s.marks[i], row, s.lines[row])
}

/// Whether a row is the language line that is drawn above a fenced block.
pub open spec fn is_header_row(s: Shown, row: int) -> bool {
    exists|i: int|
        0 <= i < s.marks.len() && (#[trigger] s.marks[i]).row == row && s.marks[i].hl@
            == "Markdown.Fence"@
}

/// Which rows are code.
pub fn code_rows(s: &Screen) -> (r: Vec<bool>)
    ensures
        r@ == Seq::new(s@.lines.len(), |i: int| is_code_row(s@, i)),
{
    let ghost want = Seq::new(s@.lines.len(), |i: int| is_code_row(s@, i));
    let mut r: Vec<bool> = Vec::new();
    let mut row: usize = 0;
    assert(s@.lines.len() == s.lines@.len());
    while row < s.lines.len()
        invariant
            row <= s.lines@.len(),
            s@.lines.len() == s.lines@.len(),
            want == Seq::new(s@.lines.len(), |i: int| is_code_row(s@, i)),
            r@ == want.take(row as int),
        decreases s.lines@.len() - row,
    {
        assert(s@.lines[row as int] == s.lines@[row as int]@);
        let n = bytes_in(s.lines[row].as_str());
        let mut found = false;
        let mut k: usize = 0;
        while k < s.marks.len() && !found
            invariant
                k <= s.marks@.len(),
                row < s.lines@.len(),
                s@.lines[row as int] == s.lines@[row as int]@,
                n == width_in_bytes(s.lines@[row as int]@),
                found == exists|i: int|
                    0 <= i < k && covers(
                        #[trigger] s.marks@[i],
                        row as int,
                        s.lines@[row as int]@,
                    ),
            decreases s.marks@.len() - k,
        {
            let m = &s.marks[k];
            let whole = match m.span {
                Some((from, to)) => from == 0 && to == n,
                None => false,
            };
            if m.row == row && whole && same_text(m.hl, "Markdown.Code") {
                found = true;
                assert(covers(s.marks@[k as int], row as int, s.lines@[row as int]@));
            }
            k = k + 1;
        }
        let ghost before = r@;
        r.push(!s.lines[row].as_str().is_empty() && found);
        proof {
            if found {
                let i = choose|i: int|
                    0 <= i < k && covers(
                        #[trigger] s.marks@[i],
                        row as int,
                        s.lines@[row as int]@,
                    );
                assert(covers(s@.marks[i], row as int, s@.lines[row as int]));
            }
            assert(want[row as int] == is_code_row(s@, row as int));
            assert(r@ =~= want.take(row + 1));
        }
        row = row + 1;
    }
    assert(want.take(row as int) =~= want);
    r
}

/// Which rows are the language line above a fenced block.
pub fn header_rows(s: &Screen) -> (r: Vec<bool>)
    ensures
        r@ == Seq::new(s@.lines.len(), |i: int| is_header_row(s@, i)),
{
    let ghost want = Seq::new(s@.lines.len(), |i: int| is_header_row(s@, i));
    let mut r: Vec<bool> = Vec::new();
    let mut row: usize = 0;
    assert(s@.lines.len() == s.lines@.len());
    while row < s.lines.len()
        invariant
            row <= s.lines@.len(),
            s@.lines.len() == s.lines@.len(),
            want == Seq::new(s@.lines.len(), |i: int| is_header_row(s@, i)),
            r@ == want.take(row as int),
        decreases s.lines@.len() - row,
    {
        let mut found = false;
        let mut k: usize = 0;
        while k < s.marks.len() && !found
            invariant
                k <= s.marks@.len(),
                found == exists|i: int|
                    0 <= i < k && (#[trigger] s.marks@[i]).row == row && s.marks@[i].hl@
                        == "Markdown.Fence"@,
            decreases s.marks@.len() - k,
        {
            let m = &s.marks[k];
            if m.row == row && same_text(m.hl, "Markdown.Fence") {
                found = true;
                assert(s.marks@[k as int].row == row);
            }
            k = k + 1;
        }
        r.push(found);
        proof {
            if found {
                let i = choose|i: int|
                    0 <= i < k && (#[trigger] s.marks@[i]).row == row && s.marks@[i].hl@
                        == "Markdown.Fence"@;
                assert(s@.marks[i].row == row);
            }
            assert(want[row as int] == is_header_row(s@, row as int));
            assert(r@ =~= want.take(row + 1));
        }
        row = row + 1;
    }
    assert(want.take(row as int) =~= want);
    r
}

// ---- what is copied ---------------------------------------------------------

/// What copying something comes to.
#[derive(Debug)]
pub enum Copied {
    /// This goes on the clipboard, and that is said.
    Copy(String, String),
    /// Nothing does, and this is said as a warning.
    Refuse(String),
}

/// Whether copying some rows comes to this: what is on them, and how many there were, or that there
/// was nothing to copy.
pub open spec fn is_copy(
    lines: Seq<Seq<char>>,
    from: int,
    to: int,
    what: Seq<char>,
    strip: bool,
    r: Copied,
) -> bool {
    let rows = copied(lines, from, to, strip);
    let text = joined_with(rows, "\n"@);
    match r {
        Copied::Copy(t, said) => !is_blank(text) && t@ == text && said@ == copied_said(
            what,
            rows.len(),
        ),
        Copied::Refuse(said) => is_blank(text) && said@ == "nothing to copy \u{2014} no "@ + what
            + " here"@,
    }
}

/// Copy some rows of the transcript, and say how many.
pub fn copy_rows(rows: &Vec<String>, from: usize, to: usize, what: &str, strip: bool) -> (r: Copied)
    ensures
        is_copy(texts(rows@), from as int, to as int, what@, strip, r),
{
    match yank_rows(rows, from, to, strip) {
        Some((text, n)) => Copied::Copy(text, say_copied(what, n)),
        None => {
            let mut said = concat("nothing to copy \u{2014} no ", what);
            said.push_str(" here");
            Copied::Refuse(said)
        },
    }
}

/// Copy the code block a row is in, without its indent. Standing on the language line is standing on
/// the block.
pub fn yank_code(s: &Screen, row: usize) -> (r: Copied)
    ensures
        ({
            let code = Seq::new(s@.lines.len(), |i: int| is_code_row(s@, i));
            let header = Seq::new(s@.lines.len(), |i: int| is_header_row(s@, i));
            if in_block(code, header, row as int) {
                exists|from: int, to: int| #[trigger]
                    is_block(code, header, row as int, from, to) && is_copy(
                        s@.lines,
                        from,
                        to,
                        "the code block"@,
                        true,
                        r,
                    )
            } else {
                r is Refuse && r->Refuse_0@ == "the cursor is not in a code block"@
            }
        }),
{
    let code = code_rows(s);
    let header = header_rows(s);
    match code_block_at(&code, &header, row) {
        Some((from, to)) => {
            let r = copy_rows(&s.lines, from, to, "the code block", true);
            assert(is_block(code@, header@, row as int, from as int, to as int));
            r
        },
        None => Copied::Refuse("the cursor is not in a code block".to_owned()),
    }
}

/// The code block a row is in is one: what is copied does not depend on how it is found.
pub proof fn a_row_is_in_one_block(
    code: Seq<bool>,
    header: Seq<bool>,
    row: int,
    a: int,
    b: int,
    c: int,
    d: int,
)
    requires
        is_block(code, header, row, a, b),
        is_block(code, header, row, c, d),
    ensures
        a == c && b == d,
{
    let at = if code[row] {
        row
    } else {
        row + 1
    };
    if a < c {
        assert(code[c - 1]);
    }
    if c < a {
        assert(code[a - 1]);
    }
    if b < d {
        assert(code[b]);
    }
    if d < b {
        assert(code[d]);
    }
}

} // verus!
