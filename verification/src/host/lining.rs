//! What stands on a line, and what stays on the screen when some of it is drawn again.

use crate::host::calls::kept_under;
use crate::host::chat::ChatState;
use crate::host::composer::Hint;
use crate::host::kept::{
    all_differ, hint_names, hints_left, hints_without, is_hint, is_hint_kept, is_of, name_among,
    row_at, row_in, segments_left, Attached,
};
use crate::host::rank::{comes_before, in_rank, put_in, reads_before, the_order_is_one, Rank};
use crate::host::screen::{
    all_carried, carried, replaced_lines, replaced_rows, row_marks, row_texts, rows_marks,
    span_marks, Line, Mark, Shown,
};
use crate::host::status::{
    any_right, left_half, part_of, ranks_of, shown_parts, status_line, then, then_coloured,
    then_part, then_parts, Part, Segment, Strip,
};
use crate::host::working::{
    elapsed_said, label_said, queued_said, working_line, working_redrawn,
};
use crate::markdown::model::spaces;
use crate::markdown::promises::is_at;
use crate::text::{decimal, width_in_bytes};
use vstd::prelude::*;

verus! {

// ---- the order of things ----------------------------------------------------

/// Texts are in the order of the first character in which they differ, and what another goes on from
/// comes before it.
pub proof fn texts_are_in_order_of_where_they_differ(
    p: Seq<char>,
    x: char,
    a: Seq<char>,
    y: char,
    b: Seq<char>,
)
    ensures
        x < y ==> reads_before(p + seq![x] + a, p + seq![y] + b),
        x < y ==> !reads_before(p + seq![y] + b, p + seq![x] + a),
        reads_before(p, p + seq![x] + a),
        !reads_before(p + seq![x] + a, p),
        !reads_before(p, p),
    decreases p.len(),
{
    let s = p + seq![x] + a;
    let t = p + seq![y] + b;
    if p.len() == 0 {
        assert(s[0] == x && t[0] == y);
    } else {
        let q = p.skip(1);
        texts_are_in_order_of_where_they_differ(q, x, a, y, b);
        assert(s.skip(1) =~= q + seq![x] + a);
        assert(t.skip(1) =~= q + seq![y] + b);
        assert(s[0] == p[0] && t[0] == p[0]);
    }
}

/// What matters more comes first, and of two that matter the same the one whose name reads first.
pub proof fn what_matters_more_comes_first(a: Rank, b: Rank)
    ensures
        a.0 < b.0 ==> comes_before(a, b) && !comes_before(b, a),
        a.0 == b.0 ==> comes_before(a, b) == reads_before(a.1, b.1),
{
}

proof fn lemma_put(order: Seq<int>, ks: Seq<Rank>, x: int)
    ensures
        put_in(order, ks, x).len() == order.len() + 1,
        forall|i: int|
            0 <= i < put_in(order, ks, x).len() ==> #[trigger] put_in(order, ks, x)[i] == x
                || order.contains(put_in(order, ks, x)[i]),
    decreases order.len(),
{
    let r = put_in(order, ks, x);
    if order.len() > 0 {
        let front = order.drop_last();
        lemma_put(front, ks, x);
        assert forall|i: int| 0 <= i < r.len() implies #[trigger] r[i] == x || order.contains(r[i]) by {
            if comes_before(ks[x], ks[order.last()]) {
                let f = put_in(front, ks, x);
                if i < f.len() {
                    assert(r[i] == f[i]);
                    if f[i] != x {
                        let k = choose|k: int| 0 <= k < front.len() && front[k] == f[i];
                        assert(order[k] == r[i]);
                    }
                } else {
                    assert(r[i] == order[order.len() - 1]);
                }
            } else if i < order.len() {
                assert(r[i] == order[i]);
            }
        }
    }
}

pub proof fn lemma_order(ks: Seq<Rank>, n: int)
    requires
        0 <= n,
    ensures
        in_rank(ks, n).len() == n,
        forall|i: int| 0 <= i < n ==> 0 <= #[trigger] in_rank(ks, n)[i] < n,
    decreases n,
{
    if n > 0 {
        lemma_order(ks, n - 1);
        let before = in_rank(ks, n - 1);
        lemma_put(before, ks, n - 1);
        assert forall|i: int| 0 <= i < n implies 0 <= #[trigger] in_rank(ks, n)[i] < n by {
            let x = in_rank(ks, n)[i];
            if x != n - 1 {
                let k = choose|k: int| 0 <= k < before.len() && before[k] == x;
                assert(0 <= before[k] < n - 1);
            }
        }
    }
}

/// The parts of a status line are in order of how much they matter.
pub proof fn the_parts_of_a_line_are_in_order(segs: Seq<Segment>)
    ensures
        shown_parts(segs).len() == segs.len(),
        ({
            let order = in_rank(ranks_of(segs), segs.len() as int);
            &&& forall|i: int, j: int|
                0 <= i < j < order.len() ==> segs[#[trigger] order[i]].priority
                    <= segs[#[trigger] order[j]].priority
            &&& forall|i: int|
                0 <= i < order.len() ==> #[trigger] shown_parts(segs)[i] == part_of(segs[order[i]])
        }),
{
    let ks = ranks_of(segs);
    let n = segs.len() as int;
    the_order_is_one(ks, n);
    let order = in_rank(ks, n);
    lemma_order(ks, n);
    assert forall|i: int, j: int| 0 <= i < j < order.len() implies segs[#[trigger] order[i]].priority
        <= segs[#[trigger] order[j]].priority by {
        assert(!comes_before(ks[order[j]], ks[order[i]]));
    }
}

// ---- a strip ----------------------------------------------------------------

/// Whether a text holds another.
pub open spec fn is_in(hay: Seq<char>, needle: Seq<char>) -> bool {
    exists|i: int| 0 <= i && i + needle.len() <= hay.len() && #[trigger] is_at(hay, i, needle)
}

pub proof fn lemma_is_in(a: Seq<char>, needle: Seq<char>, b: Seq<char>)
    ensures
        is_in(a + needle + b, needle),
{
    let s = a + needle + b;
    assert(s.subrange(a.len() as int, a.len() as int + needle.len()) =~= needle);
    assert(is_at(s, a.len() as int, needle));
}

pub proof fn lemma_still_in(a: Seq<char>, b: Seq<char>, needle: Seq<char>)
    requires
        is_in(a, needle),
    ensures
        is_in(a + b, needle),
{
    let i = choose|i: int| 0 <= i && i + needle.len() <= a.len() && #[trigger] is_at(a, i, needle);
    assert((a + b).subrange(i, i + needle.len()) =~= a.subrange(i, i + needle.len()));
    assert(is_at(a + b, i, needle));
}

/// A segment is shown with its own text, in its own colour or the line's, and with the key that
/// changes it where it has one.
pub proof fn a_segment_is_shown_as_it_is(s: Strip, seg: Segment)
    ensures
        part_of(seg).text == seg.text@,
        part_of(seg).right == seg.right,
        seg.hl is Some ==> part_of(seg).hl == seg.hl->0@,
        seg.hl is None ==> part_of(seg).hl == "Status.Line"@,
        seg.keys is Some ==> part_of(seg).keys == seg.keys->0@,
        seg.keys is None ==> part_of(seg).keys.len() == 0,
        part_of(seg).keys.len() == 0 ==> then_part(s, part_of(seg)).text == s.text + "  "@
            + seg.text@,
        part_of(seg).keys.len() > 0 ==> then_part(s, part_of(seg)).text == s.text + "  "@
            + seg.text@ + " "@ + part_of(seg).keys,
        then_part(s, part_of(seg)).marks.len() > s.marks.len(),
        ({
            let m = then_part(s, part_of(seg)).marks[s.marks.len() as int];
            &&& m.0 == width_in_bytes(s.text + "  "@)
            &&& m.1 == width_in_bytes(s.text + "  "@ + seg.text@)
            &&& m.2 == part_of(seg).hl
        }),
{
}

proof fn lemma_parts(s: Strip, parts: Seq<Part>, right: bool)
    ensures
        ({
            let r = then_parts(s, parts, right).text;
            &&& s.text.is_prefix_of(r)
            &&& forall|k: int|
                0 <= k < parts.len() && (#[trigger] parts[k]).right == right ==> is_in(
                    r,
                    parts[k].text,
                ) && is_in(r, parts[k].keys)
        }),
    decreases parts.len(),
{
    let r = then_parts(s, parts, right).text;
    if parts.len() > 0 {
        let front = parts.drop_last();
        let p = parts.last();
        let before = then_parts(s, front, right);
        lemma_parts(s, front, right);
        if p.right == right {
            let lead = before.text + "  "@;
            let tail = if p.keys.len() > 0 {
                " "@ + p.keys
            } else {
                Seq::<char>::empty()
            };
            assert(r =~= before.text + ("  "@ + p.text + tail));
            assert(r =~= lead + p.text + tail);
            lemma_is_in(lead, p.text, tail);
            if p.keys.len() > 0 {
                assert(r =~= (lead + p.text + " "@) + p.keys + Seq::<char>::empty());
                lemma_is_in(lead + p.text + " "@, p.keys, Seq::<char>::empty());
            } else {
                assert(r =~= r + p.keys + Seq::<char>::empty());
                lemma_is_in(r, p.keys, Seq::<char>::empty());
            }
            assert(s.text.is_prefix_of(r)) by {
                assert(r.subrange(0, s.text.len() as int) =~= before.text.subrange(
                    0,
                    s.text.len() as int,
                ));
            }
            assert forall|k: int| 0 <= k < parts.len() && (#[trigger] parts[k]).right
                == right implies is_in(r, parts[k].text) && is_in(r, parts[k].keys) by {
                if k < front.len() {
                    assert(front[k] == parts[k]);
                    lemma_still_in(before.text, "  "@ + p.text + tail, parts[k].text);
                    lemma_still_in(before.text, "  "@ + p.text + tail, parts[k].keys);
                }
            }
        } else {
            assert forall|k: int| 0 <= k < parts.len() && (#[trigger] parts[k]).right
                == right implies is_in(r, parts[k].text) && is_in(r, parts[k].keys) by {
                assert(front[k] == parts[k]);
            }
        }
    }
}

/// Every part of a status line that fits is on it, with its key, after the mode; and how to quit is
/// on it where nothing has been said yet.
pub proof fn every_part_is_on_the_line(mode: Seq<char>, parts: Seq<Part>, empty: bool, width: nat)
    ensures
        ({
            let r = status_line(mode, parts, empty, width).text;
            &&& (" "@ + mode).is_prefix_of(r)
            &&& forall|k: int|
                0 <= k < parts.len() ==> is_in(r, (#[trigger] parts[k]).text) && is_in(
                    r,
                    parts[k].keys,
                )
            &&& empty ==> is_in(r, "  ^C quit"@)
        }),
{
    let a = then_coloured(Strip { text: " "@, marks: seq![] }, mode, "Status.Line"@);
    let b = then_parts(a, parts, false);
    let l = left_half(mode, parts, empty);
    let none = Seq::<char>::empty();
    let quit = if empty {
        "  ^C quit"@
    } else {
        none
    };
    assert(l.text =~= b.text + quit);
    lemma_parts(a, parts, false);
    if empty {
        assert(l.text =~= b.text + quit + none);
        lemma_is_in(b.text, quit, none);
    }
    let r = status_line(mode, parts, empty, width).text;
    let tail = then_parts(Strip { text: seq![], marks: seq![] }, parts, true).text;
    let used = crate::measure::columns_of(l.text) + crate::measure::columns_of(tail) + 1;
    let padded = if width > used {
        then(l, spaces((width - used) as nat))
    } else {
        l
    };
    let whole = if any_right(parts) {
        then_parts(padded, parts, true)
    } else {
        l
    };
    assert(r == whole.text + " "@);
    lemma_parts(padded, parts, true);
    assert(l.text.is_prefix_of(padded.text));
    assert(l.text.is_prefix_of(whole.text)) by {
        if any_right(parts) {
            assert(whole.text.subrange(0, l.text.len() as int) =~= padded.text.subrange(
                0,
                l.text.len() as int,
            ));
            assert(padded.text.subrange(0, l.text.len() as int) =~= l.text);
        } else {
            assert(l.text.subrange(0, l.text.len() as int) =~= l.text);
        }
    }
    let rest = whole.text.skip(l.text.len() as int) + " "@;
    assert(r =~= l.text + rest) by {
        assert(whole.text.subrange(0, l.text.len() as int) == l.text);
        assert(whole.text =~= l.text + whole.text.skip(l.text.len() as int));
    }
    if empty {
        lemma_still_in(l.text, rest, quit);
    }
    assert forall|k: int| 0 <= k < parts.len() implies is_in(r, (#[trigger] parts[k]).text) && is_in(
        r,
        parts[k].keys,
    ) by {
        if parts[k].right {
            assert(any_right(parts));
            lemma_still_in(whole.text, " "@, parts[k].text);
            lemma_still_in(whole.text, " "@, parts[k].keys);
        } else {
            lemma_still_in(b.text, quit, parts[k].text);
            lemma_still_in(b.text, quit, parts[k].keys);
            lemma_still_in(l.text, rest, parts[k].text);
            lemma_still_in(l.text, rest, parts[k].keys);
        }
    }
    let head = " "@ + mode;
    assert(a.text == head);
    assert(r.subrange(0, head.len() as int) =~= head) by {
        assert(b.text.subrange(0, head.len() as int) == head);
        assert(r =~= b.text + quit + rest);
        assert(r.subrange(0, head.len() as int) =~= b.text.subrange(0, head.len() as int));
    }
}

// ---- the working line -------------------------------------------------------

/// How long it has been is said in minutes and seconds that come to it, and in seconds alone under a
/// minute.
pub proof fn how_long_it_has_been_is_said(minutes: nat, seconds: nat)
    requires
        seconds < 60,
    ensures
        minutes > 0 ==> elapsed_said(60 * minutes + seconds) == decimal(minutes) + "m "@ + decimal(
            seconds,
        ) + "s"@,
        elapsed_said(seconds) == decimal(seconds) + "s"@,
{
    assert((60 * minutes + seconds) / 60 == minutes);
    assert((60 * minutes + seconds) % 60 == seconds);
}

/// The working line says what is being done, for how long, what is queued, and how to stop it.
pub proof fn the_working_line_says_what_is_going_on(
    glyph: Seq<char>,
    label: Seq<char>,
    secs: nat,
    queued: nat,
)
    ensures
        ({
            let t = working_line(glyph, label, secs, queued).text;
            &&& is_in(t, label)
            &&& is_in(t, elapsed_said(secs))
            &&& is_in(t, "esc to interrupt"@)
            &&& queued > 0 ==> is_in(t, decimal(queued) + " queued"@)
            &&& queued == 0 ==> t == glyph + " "@ + label + "\u{2026}"@ + "  "@ + elapsed_said(secs)
                + "  \u{b7}  esc to interrupt"@
        }),
{
    let t = working_line(glyph, label, secs, queued).text;
    let none = Seq::<char>::empty();
    let q = queued_said(queued);
    let foot = "  \u{b7}  esc to interrupt"@;
    let head = label_said(glyph, label);
    reveal_strlit("  \u{b7}  esc to interrupt");
    reveal_strlit("esc to interrupt");
    let dot = foot.take(5);
    assert(foot =~= dot + "esc to interrupt"@);
    assert(t =~= (glyph + " "@) + label + ("\u{2026}"@ + "  "@ + elapsed_said(secs) + q + foot));
    lemma_is_in(
        glyph + " "@,
        label,
        "\u{2026}"@ + "  "@ + elapsed_said(secs) + q + foot,
    );
    assert(t =~= (head + "  "@) + elapsed_said(secs) + (q + foot));
    lemma_is_in(head + "  "@, elapsed_said(secs), q + foot);
    assert(t =~= (head + "  "@ + elapsed_said(secs) + q + dot) + "esc to interrupt"@ + none);
    lemma_is_in(head + "  "@ + elapsed_said(secs) + q + dot, "esc to interrupt"@, none);
    if queued > 0 {
        let said = decimal(queued) + " queued"@;
        assert(t =~= (head + "  "@ + elapsed_said(secs) + "  \u{b7}  "@) + said + foot);
        lemma_is_in(head + "  "@ + elapsed_said(secs) + "  \u{b7}  "@, said, foot);
    } else {
        assert(t =~= head + "  "@ + elapsed_said(secs) + foot);
    }
}

/// Drawing the working line again changes that row and no other.
pub proof fn the_working_line_is_drawn_in_its_place(s: ChatState, line: Line, i: int)
    requires
        s.working,
        0 <= s.plan_rows < s.shown.lines.len(),
        0 <= i < s.shown.lines.len(),
    ensures
        ({
            let t = working_redrawn(s, line);
            &&& t.shown.lines.len() == s.shown.lines.len()
            &&& i == s.shown.lines.len() - 1 - s.plan_rows ==> t.shown.lines[i] == line.text
            &&& i != s.shown.lines.len() - 1 - s.plan_rows ==> t.shown.lines[i] == s.shown.lines[i]
            &&& t.cards == s.cards && t.working && t.plan_rows == s.plan_rows
        }),
{
}

// ---- the screen -------------------------------------------------------------

/// Drawing some rows in the place of others puts just those there, and leaves every other row as it
/// is, further down where there are more of them now.
pub proof fn drawing_rows_leaves_the_others(s: Shown, from: int, to: int, rows: Seq<Line>, i: int)
    requires
        0 <= from <= to <= s.lines.len(),
        0 <= i < s.lines.len() - (to - from) + rows.len(),
    ensures
        ({
            let t = replaced_rows(s, from, to, rows);
            let n = rows.len();
            &&& t.lines.len() == s.lines.len() - (to - from) + n
            &&& i < from ==> t.lines[i] == s.lines[i]
            &&& from <= i < from + n ==> t.lines[i] == rows[i - from].text
            &&& i >= from + n ==> t.lines[i] == s.lines[i - n + (to - from)]
            &&& replaced_lines(s, from, to, row_texts(rows)).lines == t.lines
        }),
{
}

/// A colour goes with its row: it stays above what is drawn again, moves with what is below it, and
/// is gone with the row it was on.
pub proof fn a_colour_goes_with_its_row(marks: Seq<Mark>, from: int, to: int, n: int, m: Mark)
    requires
        0 <= from <= to,
        0 <= n,
        m.row + n <= usize::MAX,
    ensures
        m.row < from && marks.contains(m) ==> all_carried(marks, from, to, n).contains(m),
        m.row >= to && marks.contains(m) ==> all_carried(marks, from, to, n).contains(
            Mark { row: (m.row - (to - from) + n) as usize, ..m },
        ),
        forall|k: int|
            0 <= k < all_carried(marks, from, to, n).len() ==> exists|j: int|
                0 <= j < marks.len() && is_carried(
                    #[trigger] marks[j],
                    #[trigger] all_carried(marks, from, to, n)[k],
                    from,
                    to,
                    n,
                ),
    decreases marks.len(),
{
    let all = all_carried(marks, from, to, n);
    if marks.len() > 0 {
        let front = marks.drop_last();
        let last = marks.last();
        let before = all_carried(front, from, to, n);
        let here = carried(last, from, to, n);
        a_colour_goes_with_its_row(front, from, to, n, m);
        assert(all == before + here);
        let moved = Mark { row: (m.row - (to - from) + n) as usize, ..m };
        if marks.contains(m) {
            let j = choose|j: int| 0 <= j < marks.len() && marks[j] == m;
            if j < front.len() {
                assert(front[j] == m);
                assert(front.contains(m));
                if m.row < from {
                    let k = choose|k: int| 0 <= k < before.len() && before[k] == m;
                    assert(all[k] == m);
                }
                if m.row >= to {
                    let k = choose|k: int| 0 <= k < before.len() && before[k] == moved;
                    assert(all[k] == moved);
                }
            } else {
                if m.row < from {
                    assert(all[before.len() as int] == m);
                }
                if m.row >= to {
                    if m.row >= from {
                        assert(all[before.len() as int] == moved);
                    }
                }
            }
        }
        assert forall|k: int| 0 <= k < all.len() implies exists|j: int|
            0 <= j < marks.len() && is_carried(
                #[trigger] marks[j],
                #[trigger] all[k],
                from,
                to,
                n,
            ) by {
            if k < before.len() {
                assert(all[k] == before[k]);
                let j = choose|j: int|
                    0 <= j < front.len() && is_carried(
                        #[trigger] front[j],
                        before[k],
                        from,
                        to,
                        n,
                    );
                assert(marks[j] == front[j]);
                assert(is_carried(marks[j], all[k], from, to, n));
            } else {
                assert(marks[marks.len() - 1] == last);
                assert(is_carried(marks[marks.len() - 1], all[k], from, to, n));
            }
        }
    }
}

/// Whether a colour is another where the rows between two have been drawn again.
pub open spec fn is_carried(was: Mark, is: Mark, from: int, to: int, n: int) -> bool {
    &&& is.span == was.span
    &&& is.hl == was.hl
    &&& (was.row < from && is.row == was.row) || (was.row >= to && is.row == (was.row - (to - from)
        + n) as usize)
}

/// Every coloured part of a row that is drawn is coloured on that row.
pub proof fn every_colour_of_a_row_is_drawn(at: int, rows: Seq<Line>, i: int, k: int)
    requires
        0 <= at,
        at + rows.len() <= usize::MAX,
        0 <= i < rows.len(),
        0 <= k < rows[i].spans.len(),
    ensures
        ({
            let (a, b, hl) = rows[i].spans[k];
            rows_marks(at, rows).contains(Mark { row: (at + i) as usize, span: Some((a, b)), hl })
        }),
        rows[i].band is Some ==> rows_marks(at, rows).contains(
            Mark { row: (at + i) as usize, span: None, hl: rows[i].band->0 },
        ),
    decreases rows.len(),
{
    let front = rows.drop_last();
    let before = rows_marks(at, front);
    let here = row_marks((at + rows.len() - 1) as usize, rows.last());
    let all = rows_marks(at, rows);
    assert(all == before + here);
    let (a, b, hl) = rows[i].spans[k];
    let m = Mark { row: (at + i) as usize, span: Some((a, b)), hl };
    if i < front.len() {
        assert(front[i] == rows[i]);
        every_colour_of_a_row_is_drawn(at, front, i, k);
        let j = choose|j: int| 0 <= j < before.len() && before[j] == m;
        assert(all[j] == m);
        if rows[i].band is Some {
            let w = Mark { row: (at + i) as usize, span: None, hl: rows[i].band->0 };
            let j = choose|j: int| 0 <= j < before.len() && before[j] == w;
            assert(all[j] == w);
        }
    } else {
        assert(span_marks(m.row, rows[i].spans)[k] == m);
        assert(here[k] == m);
        assert(all[before.len() + k] == m);
        if rows[i].band is Some {
            let w = Mark { row: (at + i) as usize, span: None, hl: rows[i].band->0 };
            assert(here[here.len() - 1] == w);
            assert(all[before.len() + here.len() - 1] == w);
        }
    }
}

// ---- what is kept -----------------------------------------------------------

/// A name is found where it first stands, and not found only where it stands nowhere.
pub proof fn a_name_is_found_where_it_stands(names: Seq<Seq<char>>, key: Seq<char>)
    ensures
        match name_among(names, key) {
            Some(i) => {
                &&& 0 <= i < names.len()
                &&& names[i] == key
                &&& forall|j: int| 0 <= j < i ==> #[trigger] names[j] != key
            },
            None => forall|j: int| 0 <= j < names.len() ==> #[trigger] names[j] != key,
        },
    decreases names.len(),
{
    if names.len() > 0 {
        let front = names.drop_last();
        a_name_is_found_where_it_stands(front, key);
        match name_among(front, key) {
            Some(i) => {
                assert(front[i] == names[i]);
                assert forall|j: int| 0 <= j < i implies #[trigger] names[j] != key by {
                    assert(front[j] != key);
                }
            },
            None => {
                assert forall|j: int| 0 <= j < front.len() implies #[trigger] names[j] != key by {
                    assert(front[j] != key);
                }
            },
        }
    }
}

/// A hint that is kept is there under its name as it was given, once, and no other hint is lost or
/// changed; one that is cleared is gone, and no other is.
pub proof fn a_hint_is_kept_and_cleared_alone(
    was: Seq<Hint>,
    name: Seq<char>,
    keys: String,
    label: String,
    priority: i32,
    is: Seq<Hint>,
    other: Hint,
)
    requires
        all_differ(hint_names(was)),
        is_hint_kept(was, name, keys, label, priority, is),
        other.key@ != name,
    ensures
        exists|i: int| 0 <= i < is.len() && is_hint(#[trigger] is[i], name, keys, label, priority),
        was.contains(other) == is.contains(other),
        was.contains(other) == hints_without(was, name).contains(other),
        forall|i: int|
            0 <= i < hints_without(was, name).len() ==> (#[trigger] hints_without(was, name)[i]).key@
                != name,
{
    let names = hint_names(was);
    a_name_is_found_where_it_stands(names, name);
    match name_among(names, name) {
        Some(i) => {
            assert(is_hint(is[i], name, keys, label, priority));
            assert(names[i] == was[i].key@);
            let left = was.remove(i);
            if was.contains(other) {
                let j = choose|j: int| 0 <= j < was.len() && was[j] == other;
                assert(is[j] == other);
                if j < i {
                    assert(left[j] == other);
                } else {
                    assert(left[j - 1] == other);
                }
            }
            if is.contains(other) {
                let j = choose|j: int| 0 <= j < is.len() && is[j] == other;
                assert(was[j] == other);
            }
            if left.contains(other) {
                let j = choose|j: int| 0 <= j < left.len() && left[j] == other;
                if j < i {
                    assert(was[j] == other);
                } else {
                    assert(was[j + 1] == other);
                }
            }
            assert forall|j: int| 0 <= j < left.len() implies (#[trigger] left[j]).key@ != name by {
                if j < i {
                    assert(names[j] != names[i]);
                    assert(names[j] == left[j].key@);
                } else {
                    assert(names[i] != names[j + 1]);
                    assert(names[j + 1] == left[j].key@);
                }
            }
        },
        None => {
            assert(is_hint(is[is.len() - 1], name, keys, label, priority));
            if was.contains(other) {
                let j = choose|j: int| 0 <= j < was.len() && was[j] == other;
                assert(is.drop_last()[j] == other);
                assert(is[j] == other);
            }
            if is.contains(other) {
                let j = choose|j: int| 0 <= j < is.len() && is[j] == other;
                assert(is.drop_last()[j] == other);
                assert(was[j] == other);
            }
            assert forall|j: int| 0 <= j < was.len() implies (#[trigger] was[j]).key@ != name by {
                assert(names[j] == was[j].key@);
            }
        },
    }
}

/// What a plugin keeps is under its own name, and only that goes when it does.
pub proof fn only_what_is_a_plugins_own_goes_with_it(v: Seq<Hint>, plugin: Seq<char>, key: Seq<char>, h: Hint)
    ensures
        is_of(kept_under(plugin, key), plugin),
        v.contains(h) && !is_of(h.key@, plugin) ==> hints_left(v, plugin).contains(h),
        hints_left(v, plugin).contains(h) ==> v.contains(h) && !is_of(h.key@, plugin),
    decreases v.len(),
{
    let lead = plugin + ":"@;
    let whole = kept_under(plugin, key);
    assert(whole =~= lead + key);
    assert(whole.take(lead.len() as int) =~= lead);
    assert(whole.subrange(0, lead.len() as int) =~= lead);
    if v.len() > 0 {
        let front = v.drop_last();
        only_what_is_a_plugins_own_goes_with_it(front, plugin, key, h);
        let before = hints_left(front, plugin);
        let all = hints_left(v, plugin);
        if v.contains(h) && !is_of(h.key@, plugin) {
            let j = choose|j: int| 0 <= j < v.len() && v[j] == h;
            if j < front.len() {
                assert(front[j] == h);
                let k = choose|k: int| 0 <= k < before.len() && before[k] == h;
                assert(all[k] == h);
            } else {
                assert(all[before.len() as int] == h);
            }
        }
        if all.contains(h) {
            let k = choose|k: int| 0 <= k < all.len() && all[k] == h;
            if k < before.len() {
                assert(before[k] == h);
                let j = choose|j: int| 0 <= j < front.len() && front[j] == h;
                assert(v[j] == h);
            } else {
                assert(v[v.len() - 1] == h);
            }
        }
    }
}

/// As with hints.
pub proof fn only_the_segments_of_a_plugin_go_with_it(v: Seq<Segment>, plugin: Seq<char>, s: Segment)
    ensures
        v.contains(s) && !is_of(s.key@, plugin) ==> segments_left(v, plugin).contains(s),
        segments_left(v, plugin).contains(s) ==> v.contains(s) && !is_of(s.key@, plugin),
    decreases v.len(),
{
    if v.len() > 0 {
        let front = v.drop_last();
        only_the_segments_of_a_plugin_go_with_it(front, plugin, s);
        let before = segments_left(front, plugin);
        let all = segments_left(v, plugin);
        if v.contains(s) && !is_of(s.key@, plugin) {
            let j = choose|j: int| 0 <= j < v.len() && v[j] == s;
            if j < front.len() {
                assert(front[j] == s);
                let k = choose|k: int| 0 <= k < before.len() && before[k] == s;
                assert(all[k] == s);
            } else {
                assert(all[before.len() as int] == s);
            }
        }
        if all.contains(s) {
            let k = choose|k: int| 0 <= k < all.len() && all[k] == s;
            if k < before.len() {
                assert(before[k] == s);
                let j = choose|j: int| 0 <= j < front.len() && front[j] == s;
                assert(v[j] == s);
            } else {
                assert(v[v.len() - 1] == s);
            }
        }
    }
}

/// The row of a conversation is found by its name, and is empty only where there is none or nothing
/// is on it.
pub proof fn a_conversation_has_its_own_row(v: Seq<Attached>, session: Seq<char>)
    ensures
        match row_in(v, session) {
            Some(i) => 0 <= i < v.len() && v[i].session.0@ == session && row_at(v, session)
                == v[i].row@,
            None => row_at(v, session).len() == 0 && forall|i: int|
                0 <= i < v.len() ==> (#[trigger] v[i]).session.0@ != session,
        },
    decreases v.len(),
{
    if v.len() > 0 && v.last().session.0@ != session {
        let front = v.drop_last();
        a_conversation_has_its_own_row(front, session);
        if row_in(front, session) is None {
            assert forall|i: int| 0 <= i < v.len() implies (#[trigger] v[i]).session.0@ != session by {
                if i < front.len() {
                    assert(front[i] == v[i]);
                }
            }
        }
    }
}

} // verus!
