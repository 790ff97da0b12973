//! What the transcript says before anything has happened.

use crate::host::screen::{bare_line, one_colour, rows_of, Line, Row};
use crate::logo::{face_of, glyphs, paint, painted, Painted, WIDTH};
use crate::markdown::model::spaces;
use crate::text::{bytes_in, chars_of, width_in_bytes};
use vstd::prelude::*;

verus! {

/// One row of the word at the top.
pub open spec fn logo_line(i: int) -> Line {
    Line {
        text: spaces(2) + glyphs(i),
        spans: paint(glyphs(i), width_in_bytes(spaces(2)) as int, face_of(i)).map_values(
            |p: Painted| (p.0 as usize, p.1 as usize, p.2),
        ),
        band: None,
    }
}

/// The word, where there is room for it and a terminal that can draw it, and the same said in plain
/// text where there is not.
pub open spec fn title_lines(ascii: bool, width: nat) -> Seq<Line> {
    if !ascii && width >= WIDTH + 2 {
        Seq::new(6, |i: int| logo_line(i)).push(
            one_colour("  a terminal-first agent workspace"@, "Comment"),
        )
    } else {
        let text = "  neosh \u{2014} a terminal-first agent workspace"@;
        seq![
            Line {
                text,
                spans: seq![
                    (2usize, 7usize, "Accent"),
                    (7usize, width_in_bytes(text) as usize, "Comment"),
                ],
                band: None,
            },
        ]
    }
}

/// A fact, after what it is a fact about.
pub open spec fn fact_line(label: Seq<char>, text: Seq<char>) -> Line {
    Line { text: label + text, spans: seq![(0usize, 13usize, "Comment")], band: None }
}

/// The keys worth knowing before the first question. Where there is no conversation, a different
/// five: what is worth knowing then is how to get one.
pub open spec fn welcome_keys(ascii: bool, empty: bool) -> Seq<(Seq<char>, Seq<char>)> {
    let enter = if ascii {
        "Enter"@
    } else {
        "\u{23ce}"@
    };
    if empty {
        seq![
            (enter, "start"@),
            ("^O"@, "add project"@),
            ("^T"@, "projects"@),
            ("^F"@, "archived"@),
            ("^Z"@, "every key"@),
        ]
    } else {
        seq![
            (enter, "send"@),
            ("^S"@, "browse & copy"@),
            ("^P"@, "model"@),
            ("^T"@, "projects"@),
            ("^Z"@, "every key"@),
        ]
    }
}

/// What separates a key from the one before it.
pub open spec fn key_gap(i: int) -> Seq<char> {
    if i > 0 {
        "   "@
    } else {
        ""@
    }
}

/// A row with one more key on it.
pub open spec fn with_key(l: Line, i: int, key: Seq<char>, label: Seq<char>) -> Line {
    let a = l.text + key_gap(i);
    let b = a + key;
    let c = b + " "@ + label;
    Line {
        text: c,
        spans: l.spans + seq![
            (width_in_bytes(a) as usize, width_in_bytes(b) as usize, "Key"),
            (width_in_bytes(b) as usize, width_in_bytes(c) as usize, "Comment"),
        ],
        band: None,
    }
}

/// A row with as many keys on it as fit, from the `i`th on, in the order they are worth knowing. The
/// first is there in any case.
pub open spec fn key_row(l: Line, keys: Seq<(Seq<char>, Seq<char>)>, i: int, width: nat) -> Line
    decreases keys.len() - i,
{
    if i < 0 || i >= keys.len() {
        l
    } else {
        let would = key_gap(i).len() + keys[i].0.len() + 1 + keys[i].1.len();
        if i > 0 && l.text.len() + would > width {
            l
        } else {
            key_row(with_key(l, i, keys[i].0, keys[i].1), keys, i + 1, width)
        }
    }
}

/// What the transcript says before anything has happened: the word, what answers and where, what
/// there is to say of that, and the keys worth knowing.
pub open spec fn welcome_lines(
    ascii: bool,
    width: nat,
    model: Seq<char>,
    directory: Seq<char>,
    empty: bool,
    unusable: bool,
) -> Seq<Line> {
    let blank = bare_line(seq![]);
    let a = seq![blank] + title_lines(ascii, width) + seq![
        blank,
        fact_line("  model      "@, model),
        fact_line("  directory  "@, directory),
        blank,
    ];
    let b = if empty {
        a + seq![
            one_colour("  Nothing open. What you type here starts a conversation."@, "Comment"),
            blank,
        ]
    } else {
        a
    };
    let c = if unusable {
        b + seq![
            one_colour(
                "  This model cannot authenticate yet. Press ^P to pick another, or add a key there."@,
                "Diagnostic.Warn",
            ),
            blank,
        ]
    } else {
        b
    };
    c + seq![
        key_row(
            Line { text: "  "@, spans: seq![], band: None },
            welcome_keys(ascii, empty),
            0,
            width,
        ),
        blank,
    ]
}

fn push_row(rows: &mut Vec<Row>, r: Row)
    ensures
        rows_of(final(rows)@) == rows_of(old(rows)@).push(r@),
{
    let ghost one = r@;
    rows.push(r);
    assert(rows_of(rows@) =~= rows_of(old(rows)@).push(one));
}

fn push_blank(rows: &mut Vec<Row>)
    ensures
        rows_of(final(rows)@) == rows_of(old(rows)@).push(bare_line(seq![])),
{
    let none = String::new();
    assert(none@ =~= seq![]);
    push_row(rows, Row::bare(none));
}

fn push_fact(rows: &mut Vec<Row>, label: &str, text: &str)
    ensures
        rows_of(final(rows)@) == rows_of(old(rows)@).push(fact_line(label@, text@)),
{
    let said = crate::words::concat(label, text);
    let spans = vec![(0usize, 13usize, "Comment")];
    assert(spans@ =~= seq![(0usize, 13usize, "Comment")]);
    push_row(rows, Row { text: said, spans, band: None });
}

fn push_title(rows: &mut Vec<Row>, ascii: bool, width: usize)
    ensures
        rows_of(final(rows)@) == rows_of(old(rows)@) + title_lines(ascii, width as nat),
{
    let ghost before = rows_of(rows@);
    if !ascii && width >= WIDTH + 2 {
        let ghost word = Seq::new(6, |i: int| logo_line(i));
        let mut i: usize = 0;
        assert(rows_of(rows@) =~= before + word.take(0));
        while i < 6
            invariant
                i <= 6,
                word == Seq::new(6, |i: int| logo_line(i)),
                rows_of(rows@) == before + word.take(i as int),
            decreases 6 - i,
        {
            let (text, spans) = crate::logo::row(i, 2);
            let r = Row { text, spans, band: None };
            let ghost was = rows_of(rows@);
            proof {
                let p = paint(
                    glyphs(i as int),
                    width_in_bytes(spaces(2)) as int,
                    face_of(i as int),
                );
                assert(painted(spans@) == p);
                assert(spans@ =~= p.map_values(|p: Painted| (p.0 as usize, p.1 as usize, p.2))) by {
                    assert forall|k: int| 0 <= k < spans@.len() implies spans@[k] == (
                        p[k].0 as usize,
                        p[k].1 as usize,
                        p[k].2,
                    ) by {
                        assert(painted(spans@)[k] == p[k]);
                    }
                    assert(painted(spans@).len() == spans@.len());
                }
                assert(r@ == logo_line(i as int));
            }
            push_row(rows, r);
            assert(before + word.take(i + 1) =~= was.push(word[i as int]));
            i = i + 1;
        }
        assert(word.take(6) =~= word);
        push_row(
            rows,
            Row::plain("  a terminal-first agent workspace".to_owned(), "Comment"),
        );
        assert(rows_of(rows@) =~= before + title_lines(ascii, width as nat));
    } else {
        let text = "  neosh \u{2014} a terminal-first agent workspace".to_owned();
        let n = bytes_in(text.as_str());
        let spans = vec![(2usize, 7usize, "Accent"), (7usize, n, "Comment")];
        assert(spans@ =~= seq![(2usize, 7usize, "Accent"), (7usize, n, "Comment")]);
        push_row(rows, Row { text, spans, band: None });
        assert(rows_of(rows@) =~= before + title_lines(ascii, width as nat));
    }
}

fn key_list(ascii: bool, empty: bool) -> (r: [(&'static str, &'static str); 5])
    ensures
        r@.map_values(|k: (&'static str, &'static str)| (k.0@, k.1@)) == welcome_keys(ascii, empty),
{
    let enter = if ascii {
        "Enter"
    } else {
        "\u{23ce}"
    };
    let r = if empty {
        [
            (enter, "start"),
            ("^O", "add project"),
            ("^T", "projects"),
            ("^F", "archived"),
            ("^Z", "every key"),
        ]
    } else {
        [
            (enter, "send"),
            ("^S", "browse & copy"),
            ("^P", "model"),
            ("^T", "projects"),
            ("^Z", "every key"),
        ]
    };
    assert(r@.map_values(|k: (&'static str, &'static str)| (k.0@, k.1@)) =~= welcome_keys(
        ascii,
        empty,
    ));
    r
}

fn keys_row(ascii: bool, empty: bool, width: usize) -> (r: Row)
    ensures
        r@ == key_row(
            Line { text: "  "@, spans: seq![], band: None },
            welcome_keys(ascii, empty),
            0,
            width as nat,
        ),
{
    let keys = key_list(ascii, empty);
    let ghost ks = welcome_keys(ascii, empty);
    let none: Vec<(usize, usize, &'static str)> = Vec::new();
    let mut row = Row { text: "  ".to_owned(), spans: none, band: None };
    let ghost start = row@;
    assert(row.spans@ =~= seq![]);
    proof {
        reveal_strlit("   ");
        reveal_strlit("");
    }
    let mut i: usize = 0;
    while i < 5
        invariant
            i <= 5,
            "   "@.len() == 3,
            ""@.len() == 0,
            ks == welcome_keys(ascii, empty),
            start == (Line { text: "  "@, spans: seq![], band: None }),
            ks.len() == 5,
            keys@.map_values(|k: (&'static str, &'static str)| (k.0@, k.1@)) == ks,
            key_row(start, ks, 0, width as nat) == key_row(row@, ks, i as int, width as nat),
            row.band is None,
        decreases 5 - i,
    {
        let (key, label) = keys[i];
        proof {
            assert(ks[i as int] == (key@, label@));
        }
        let gap: u128 = if i > 0 {
            3
        } else {
            0
        };
        let kc = chars_of(key);
        let lc = chars_of(label);
        let tc = chars_of(row.text.as_str());
        let would: u128 = gap + kc.len() as u128 + 1 + lc.len() as u128;
        if i > 0 && tc.len() as u128 + would > width as u128 {
            return row;
        }
        let ghost was = row@;
        if i > 0 {
            row.text.push_str("   ");
        } else {
            row.text.push_str("");
        }
        let a = bytes_in(row.text.as_str());
        row.text.push_str(key);
        let b = bytes_in(row.text.as_str());
        row.spans.push((a, b, "Key"));
        row.text.push_str(" ");
        row.text.push_str(label);
        let c = bytes_in(row.text.as_str());
        row.spans.push((b, c, "Comment"));
        proof {
            let want = with_key(was, i as int, key@, label@);
            assert(row@.text == want.text);
            assert(row@.spans =~= want.spans);
            assert(row@ == want);
        }
        i = i + 1;
    }
    row
}

/// What the transcript says before anything has happened.
///
/// Redrawn rather than written once, because the two facts worth putting here, which model answers
/// and whether it can, are not known when the first frame goes up.
pub fn draw_welcome(
    ascii: bool,
    width: usize,
    model: &str,
    directory: &str,
    empty: bool,
    unusable: bool,
) -> (r: Vec<Row>)
    ensures
        rows_of(r@) == welcome_lines(ascii, width as nat, model@, directory@, empty, unusable),
{
    let mut rows: Vec<Row> = Vec::new();
    assert(rows_of(rows@) =~= seq![]);
    push_blank(&mut rows);
    push_title(&mut rows, ascii, width);
    push_blank(&mut rows);
    push_fact(&mut rows, "  model      ", model);
    push_fact(&mut rows, "  directory  ", directory);
    push_blank(&mut rows);
    // Said only when it is true: nothing else on screen is going to tell you that typing is how a
    // conversation starts.
    if empty {
        push_row(
            &mut rows,
            Row::plain(
                "  Nothing open. What you type here starts a conversation.".to_owned(),
                "Comment",
            ),
        );
        push_blank(&mut rows);
    }
    if unusable {
        push_row(
            &mut rows,
            Row::plain(
                "  This model cannot authenticate yet. Press ^P to pick another, or add a key there.".to_owned(),
                "Diagnostic.Warn",
            ),
        );
        push_blank(&mut rows);
    }
    push_row(&mut rows, keys_row(ascii, empty, width));
    push_blank(&mut rows);
    assert(rows_of(rows@) =~= welcome_lines(
        ascii,
        width as nat,
        model@,
        directory@,
        empty,
        unusable,
    ));
    rows
}

/// Which model answers, and how it is paid for.
pub open spec fn model_said(
    selection: Option<(Seq<char>, Seq<char>)>,
    account: Option<Seq<char>>,
) -> Seq<char> {
    match selection {
        Some((instance, model)) => match account {
            Some(a) => instance + "/"@ + model + "  \u{b7}  "@ + a,
            None => instance + "/"@ + model,
        },
        None => "nothing configured \u{2014} run `neosh --list-models`"@,
    }
}

/// Which model answers, and how it is paid for.
pub fn model_line(selection: Option<(&str, &str)>, account: Option<&str>) -> (r: String)
    ensures
        r@ == model_said(
            match selection {
                Some((i, m)) => Some((i@, m@)),
                None => None,
            },
            match account {
                Some(a) => Some(a@),
                None => None,
            },
        ),
{
    match selection {
        Some((instance, model)) => {
            let mut r = instance.to_owned();
            r.push_str("/");
            r.push_str(model);
            if let Some(a) = account {
                r.push_str("  \u{b7}  ");
                r.push_str(a);
            }
            r
        },
        None => "nothing configured \u{2014} run `neosh --list-models`".to_owned(),
    }
}

/// How many rows the welcome replaces: what is there where that is nothing, and its own rows where
/// it was drawn before. Anything else in the transcript is a conversation, and is left alone.
pub fn welcome_replaces(lines: &Vec<String>, welcome_rows: usize) -> (r: Option<usize>)
    ensures
        ({
            let blank = lines@.len() <= 1 && forall|i: int|
                0 <= i < lines@.len() ==> (#[trigger] lines@[i])@.len() == 0;
            r == if blank {
                Some(lines@.len() as usize)
            } else if lines@.len() == welcome_rows {
                Some(welcome_rows)
            } else {
                None
            }
        }),
{
    let n = lines.len();
    let blank = n == 0 || (n == 1 && lines[0].as_str().is_empty());
    proof {
        if n == 1 && lines@[0]@.len() == 0 {
            assert forall|i: int| 0 <= i < lines@.len() implies (#[trigger] lines@[i])@.len() == 0 by {}
        }
        if n == 1 && lines@[0]@.len() > 0 {
            assert(!(forall|i: int| 0 <= i < lines@.len() ==> (#[trigger] lines@[i])@.len() == 0));
        }
    }
    if blank || n == welcome_rows {
        Some(n)
    } else {
        None
    }
}

} // verus!
