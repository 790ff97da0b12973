//! The word at the top of an empty transcript.
//!
//! Block letters, lit like brushed metal: a vertical grey ramp across the faces of the letters and
//! a single dark grey for the shadow underneath. Colour lives in the palette; this says where each
//! colour goes.

use crate::markdown::block::push_spaces;
use crate::markdown::model::spaces;
use crate::text::{bytes_in, chars_of, lemma_bytes_concat, push_chars, width_in_bytes};
use vstd::prelude::*;
use vstd::slice::slice_subrange;

verus! {

/// The letters. Six rows, forty-three columns.
pub const ROWS: [&'static str; 6] = [
    "\u{2588}\u{2588}\u{2588}\u{2557}   \u{2588}\u{2588}\u{2557}\u{2588}\u{2588}\u{2588}\u{2588}\u{2588}\u{2588}\u{2588}\u{2557} \u{2588}\u{2588}\u{2588}\u{2588}\u{2588}\u{2588}\u{2557} \u{2588}\u{2588}\u{2588}\u{2588}\u{2588}\u{2588}\u{2588}\u{2557}\u{2588}\u{2588}\u{2557}  \u{2588}\u{2588}\u{2557}",
    "\u{2588}\u{2588}\u{2588}\u{2588}\u{2557}  \u{2588}\u{2588}\u{2551}\u{2588}\u{2588}\u{2554}\u{2550}\u{2550}\u{2550}\u{2550}\u{255d}\u{2588}\u{2588}\u{2554}\u{2550}\u{2550}\u{2550}\u{2588}\u{2588}\u{2557}\u{2588}\u{2588}\u{2554}\u{2550}\u{2550}\u{2550}\u{2550}\u{255d}\u{2588}\u{2588}\u{2551}  \u{2588}\u{2588}\u{2551}",
    "\u{2588}\u{2588}\u{2554}\u{2588}\u{2588}\u{2557} \u{2588}\u{2588}\u{2551}\u{2588}\u{2588}\u{2588}\u{2588}\u{2588}\u{2557}  \u{2588}\u{2588}\u{2551}   \u{2588}\u{2588}\u{2551}\u{2588}\u{2588}\u{2588}\u{2588}\u{2588}\u{2588}\u{2588}\u{2557}\u{2588}\u{2588}\u{2588}\u{2588}\u{2588}\u{2588}\u{2588}\u{2551}",
    "\u{2588}\u{2588}\u{2551}\u{255a}\u{2588}\u{2588}\u{2557}\u{2588}\u{2588}\u{2551}\u{2588}\u{2588}\u{2554}\u{2550}\u{2550}\u{255d}  \u{2588}\u{2588}\u{2551}   \u{2588}\u{2588}\u{2551}\u{255a}\u{2550}\u{2550}\u{2550}\u{2550}\u{2588}\u{2588}\u{2551}\u{2588}\u{2588}\u{2554}\u{2550}\u{2550}\u{2588}\u{2588}\u{2551}",
    "\u{2588}\u{2588}\u{2551} \u{255a}\u{2588}\u{2588}\u{2588}\u{2588}\u{2551}\u{2588}\u{2588}\u{2588}\u{2588}\u{2588}\u{2588}\u{2588}\u{2557}\u{255a}\u{2588}\u{2588}\u{2588}\u{2588}\u{2588}\u{2588}\u{2554}\u{255d}\u{2588}\u{2588}\u{2588}\u{2588}\u{2588}\u{2588}\u{2588}\u{2551}\u{2588}\u{2588}\u{2551}  \u{2588}\u{2588}\u{2551}",
    "\u{255a}\u{2550}\u{255d}  \u{255a}\u{2550}\u{2550}\u{2550}\u{255d}\u{255a}\u{2550}\u{2550}\u{2550}\u{2550}\u{2550}\u{2550}\u{255d} \u{255a}\u{2550}\u{2550}\u{2550}\u{2550}\u{2550}\u{255d} \u{255a}\u{2550}\u{2550}\u{2550}\u{2550}\u{2550}\u{2550}\u{255d}\u{255a}\u{2550}\u{255d}  \u{255a}\u{2550}\u{255d}",
];

/// Columns the word occupies. Every glyph in it is one cell wide.
pub const WIDTH: usize = 43;

/// The face groups, top row first.
pub const FACES: [&'static str; 6] = [
    "Logo.Face0",
    "Logo.Face1",
    "Logo.Face2",
    "Logo.Face3",
    "Logo.Face4",
    "Logo.Face5",
];

/// The shadow group.
pub const EDGE: &'static str = "Logo.Edge";

/// What a glyph is part of.
#[derive(Clone, Copy, PartialEq, Eq, Structural)]
pub enum Part {
    Face,
    Edge,
    Gap,
}

/// The face of a letter is every `\u{2588}`; everything else that is not a space is shadow.
pub open spec fn part_of(c: char) -> Part {
    if c == '\u{2588}' {
        Part::Face
    } else if c == ' ' {
        Part::Gap
    } else {
        Part::Edge
    }
}

fn part(c: char) -> (r: Part)
    ensures
        r == part_of(c),
{
    if c == '\u{2588}' {
        Part::Face
    } else if c == ' ' {
        Part::Gap
    } else {
        Part::Edge
    }
}

/// How many glyphs at the front are part of the same thing.
pub open spec fn run_len(s: Seq<char>, p: Part) -> int
    decreases s.len(),
{
    if s.len() == 0 || part_of(s[0]) != p {
        0
    } else {
        1 + run_len(s.skip(1), p)
    }
}

proof fn lemma_run_len(s: Seq<char>, p: Part, n: int)
    requires
        0 <= n <= s.len(),
        forall|j: int| 0 <= j < n ==> part_of(#[trigger] s[j]) == p,
        n < s.len() ==> part_of(s[n]) != p,
    ensures
        run_len(s, p) == n,
    decreases n,
{
    if n > 0 {
        assert(part_of(s[0]) == p);
        assert forall|j: int| 0 <= j < n - 1 implies part_of(#[trigger] s.skip(1)[j]) == p by {
            assert(part_of(s[j + 1]) == p);
        }
        lemma_run_len(s.skip(1), p, n - 1);
    }
}

proof fn lemma_run_bounds(s: Seq<char>, p: Part)
    ensures
        0 <= run_len(s, p) <= s.len(),
        forall|j: int| 0 <= j < run_len(s, p) ==> part_of(#[trigger] s[j]) == p,
    decreases s.len(),
{
    if s.len() > 0 && part_of(s[0]) == p {
        lemma_run_bounds(s.skip(1), p);
        assert forall|j: int| 0 <= j < run_len(s, p) implies part_of(#[trigger] s[j]) == p by {
            if j > 0 {
                assert(part_of(s.skip(1)[j - 1]) == p);
            }
        }
    }
}

/// A span of bytes and the group that colours it.
pub type Painted = (int, int, &'static str);

/// The spans of some glyphs that start `at` bytes into a row: one for each run of the same part,
/// and none for a gap.
pub open spec fn paint(s: Seq<char>, at: int, face: &'static str) -> Seq<Painted>
    decreases s.len(),
{
    if s.len() == 0 {
        seq![]
    } else {
        let p = part_of(s[0]);
        let n = run_len(s, p);
        if 0 < n <= s.len() {
            let to = at + width_in_bytes(s.take(n));
            let rest = paint(s.skip(n), to, face);
            match p {
                Part::Face => seq![(at, to, face)] + rest,
                Part::Edge => seq![(at, to, EDGE)] + rest,
                Part::Gap => rest,
            }
        } else {
            seq![]
        }
    }
}

/// The glyphs of a row of the word. A row that does not exist has none.
pub open spec fn glyphs(i: int) -> Seq<char> {
    if 0 <= i < 6 {
        ROWS@[i]@
    } else {
        seq![]
    }
}

/// The group for the faces of a row.
pub open spec fn face_of(i: int) -> &'static str {
    if 0 <= i < 6 {
        FACES@[i]
    } else {
        EDGE
    }
}

/// Spans as plain numbers.
pub open spec fn painted(v: Seq<(usize, usize, &'static str)>) -> Seq<Painted> {
    v.map_values(|s: (usize, usize, &'static str)| (s.0 as int, s.1 as int, s.2))
}

/// One row of the word, indented by `indent` columns, with the byte spans to colour.
pub fn row(i: usize, indent: usize) -> (r: (String, Vec<(usize, usize, &'static str)>))
    ensures
        r.0@ == spaces(indent as nat) + glyphs(i as int),
        painted(r.1@) == paint(
            glyphs(i as int),
            width_in_bytes(spaces(indent as nat)) as int,
            face_of(i as int),
        ),
{
    let mut out = String::new();
    let mut found: Vec<(usize, usize, &'static str)> = Vec::new();
    push_spaces(&mut out, indent);
    assert(out@ =~= spaces(indent as nat));
    if i >= 6 {
        assert(out@ =~= spaces(indent as nat) + glyphs(i as int));
        assert(painted(found@) =~= seq![]);
        return (out, found);
    }
    let face: &'static str = FACES[i];
    let chars = chars_of(ROWS[i]);
    let ghost s = glyphs(i as int);
    let ghost pad = spaces(indent as nat);
    let ghost start = width_in_bytes(pad) as int;
    let mut k: usize = 0;
    proof {
        assert(s.skip(0) =~= s);
        assert(s.take(0) =~= seq![]);
        assert(out@ =~= pad + s.take(0));
        assert(painted(found@) + paint(s, start, face) =~= paint(s, start, face));
    }
    while k < chars.len()
        invariant
            k <= chars@.len(),
            chars@ == s,
            out@ == pad + s.take(k as int),
            painted(found@) + paint(s.skip(k as int), width_in_bytes(out@) as int, face) == paint(
                s,
                start,
                face,
            ),
        decreases chars@.len() - k,
    {
        let p = part(chars[k]);
        let from = bytes_in(out.as_str());
        let mut e: usize = k;
        let ghost rest = s.skip(k as int);
        while e < chars.len() && part(chars[e]) == p
            invariant
                k <= e <= chars@.len(),
                chars@ == s,
                forall|j: int| k <= j < e ==> part_of(#[trigger] s[j]) == p,
            decreases chars@.len() - e,
        {
            e = e + 1;
        }
        proof {
            assert(rest[0] == s[k as int]);
            assert(e > k);
            assert forall|j: int| 0 <= j < e - k implies part_of(#[trigger] rest[j]) == p by {
                assert(part_of(s[j + k]) == p);
            }
            lemma_run_len(rest, p, e - k);
        }
        let ghost was = out@;
        let ghost before = painted(found@);
        let run = slice_subrange(chars.as_slice(), k, e);
        push_chars(&mut out, run);
        let to = bytes_in(out.as_str());
        proof {
            assert(run@ =~= rest.take(e - k));
            lemma_bytes_concat(was, run@);
            assert(out@ =~= pad + s.take(e as int));
            assert(rest.skip(e - k) =~= s.skip(e as int));
        }
        match p {
            Part::Face => {
                found.push((from, to, face));
                assert(painted(found@) =~= before.push((from as int, to as int, face)));
            },
            Part::Edge => {
                found.push((from, to, EDGE));
                assert(painted(found@) =~= before.push((from as int, to as int, EDGE)));
            },
            Part::Gap => {},
        }
        proof {
            assert(painted(found@) + paint(s.skip(e as int), to as int, face) =~= before + paint(
                rest,
                from as int,
                face,
            ));
        }
        k = e;
    }
    proof {
        assert(s.skip(k as int) =~= seq![]);
        assert(s.take(k as int) =~= s);
        assert(painted(found@) + Seq::<Painted>::empty() =~= painted(found@));
    }
    (out, found)
}

/// How many bytes some spans cover together.
pub open spec fn covered(v: Seq<Painted>) -> int
    decreases v.len(),
{
    if v.len() == 0 {
        0
    } else {
        (v[0].1 - v[0].0) + covered(v.skip(1))
    }
}

/// How many gaps there are.
pub open spec fn gaps(s: Seq<char>) -> int
    decreases s.len(),
{
    if s.len() == 0 {
        0
    } else {
        (if part_of(s[0]) == Part::Gap {
            1int
        } else {
            0
        }) + gaps(s.skip(1))
    }
}

proof fn lemma_gaps(s: Seq<char>, p: Part, n: int)
    requires
        0 <= n <= s.len(),
        forall|j: int| 0 <= j < n ==> part_of(#[trigger] s[j]) == p,
    ensures
        gaps(s) == gaps(s.skip(n)) + (if p == Part::Gap {
            n
        } else {
            0
        }),
        p == Part::Gap ==> width_in_bytes(s.take(n)) == n,
    decreases n,
{
    if n == 0 {
        assert(s.skip(0) =~= s);
        assert(s.take(0) =~= seq![]);
    } else {
        assert(part_of(s[0]) == p);
        assert forall|j: int| 0 <= j < n - 1 implies part_of(#[trigger] s.skip(1)[j]) == p by {
            assert(part_of(s[j + 1]) == p);
        }
        lemma_gaps(s.skip(1), p, n - 1);
        assert(s.skip(1).skip(n - 1) =~= s.skip(n));
        assert(s.take(n) =~= seq![s[0]] + s.skip(1).take(n - 1));
        lemma_bytes_concat(seq![s[0]], s.skip(1).take(n - 1));
        if p == Part::Gap {
            lemma_space_is_one_byte();
            assert(seq![s[0]] =~= seq![' ']);
        }
    }
}

proof fn lemma_space_is_one_byte()
    ensures
        width_in_bytes(seq![' ']) == 1,
{
    reveal_with_fuel(vstd::utf8::encode_utf8, 2);
    assert(seq![' '].drop_first() =~= seq![]);
}

/// Everything but the gaps is coloured: the spans of a row and its spaces come to all its bytes.
pub proof fn everything_but_the_spaces_is_coloured(s: Seq<char>, at: int, face: &'static str)
    ensures
        covered(paint(s, at, face)) + gaps(s) == width_in_bytes(s),
    decreases s.len(),
{
    if s.len() > 0 {
        let p = part_of(s[0]);
        let n = run_len(s, p);
        lemma_run_bounds(s, p);
        lemma_run_bounds(s.skip(1), p);
        lemma_gaps(s, p, n);
        assert(n >= 1);
        let to = at + width_in_bytes(s.take(n));
        everything_but_the_spaces_is_coloured(s.skip(n), to, face);
        assert(s =~= s.take(n) + s.skip(n));
        lemma_bytes_concat(s.take(n), s.skip(n));
        let rest = paint(s.skip(n), to, face);
        let all = paint(s, at, face);
        if p != Part::Gap {
            assert(all.skip(1) =~= rest);
        }
    }
}

} // verus!
