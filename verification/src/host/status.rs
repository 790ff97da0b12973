//! The status line: one line, always visible, that plugins put things in.

use crate::host::rank::{in_rank, indices, rank, ranks, Rank};
use crate::host::reading::SelectShape;
use crate::host::keys::Mode;
use crate::markdown::block::push_spaces;
use crate::markdown::model::spaces;
use crate::measure::{columns_of, display_width};
use crate::text::{bytes_in, width_in_bytes};
use vstd::prelude::*;

verus! {

/// What a plugin put in the status line.
#[derive(Debug)]
pub struct Segment {
    /// Whose it is and which, so that two plugins choosing the same name cannot fight.
    pub key: String,
    pub text: String,
    pub hl: Option<String>,
    /// The key that changes it.
    pub keys: Option<String>,
    pub right: bool,
    pub priority: i32,
}

/// What a plugin put in the status line, as plain values.
pub struct Part {
    pub text: Seq<char>,
    pub hl: Seq<char>,
    /// Empty where there is none.
    pub keys: Seq<char>,
    pub right: bool,
}

pub open spec fn part_of(s: Segment) -> Part {
    Part {
        text: s.text@,
        hl: match s.hl {
            Some(h) => h@,
            None => "Status.Line"@,
        },
        keys: match s.keys {
            Some(k) => k@,
            None => seq![],
        },
        right: s.right,
    }
}

/// A line of text and the groups that colour its bytes.
pub struct Strip {
    pub text: Seq<char>,
    pub marks: Seq<(int, int, Seq<char>)>,
}

/// A strip with more text that nothing colours.
pub open spec fn then(s: Strip, text: Seq<char>) -> Strip {
    Strip { text: s.text + text, marks: s.marks }
}

/// A strip with more text of one group.
pub open spec fn then_coloured(s: Strip, text: Seq<char>, hl: Seq<char>) -> Strip {
    Strip {
        text: s.text + text,
        marks: s.marks.push(
            (width_in_bytes(s.text) as int, width_in_bytes(s.text + text) as int, hl),
        ),
    }
}

/// A strip with one more segment: what it says, and right after it the key that changes it.
pub open spec fn then_part(s: Strip, p: Part) -> Strip {
    let a = then_coloured(then(s, "  "@), p.text, p.hl);
    if p.keys.len() > 0 {
        then_coloured(then(a, " "@), p.keys, "Composer.HintKey"@)
    } else {
        a
    }
}

/// A strip with those of some segments that go on one side.
pub open spec fn then_parts(s: Strip, parts: Seq<Part>, right: bool) -> Strip
    decreases parts.len(),
{
    if parts.len() == 0 {
        s
    } else {
        let before = then_parts(s, parts.drop_last(), right);
        if parts.last().right == right {
            then_part(before, parts.last())
        } else {
            before
        }
    }
}

/// How many columns a segment costs.
pub open spec fn cost_of(p: Part) -> nat {
    2 + columns_of(p.text) + (if p.keys.len() > 0 {
        1 + columns_of(p.keys)
    } else {
        0
    })
}

/// The first `n` of some costs together.
pub open spec fn cost_of_first(costs: Seq<nat>, n: int) -> nat
    decreases n,
{
    if n <= 0 {
        0
    } else {
        cost_of_first(costs, n - 1) + costs[n - 1]
    }
}

/// How many of the first `n` segments fit, the most important first: all of them where no width is
/// known.
pub open spec fn how_many(costs: Seq<nat>, base: nat, width: nat, n: int) -> int
    decreases n,
{
    if n <= 0 {
        0
    } else if width == 0 || base + cost_of_first(costs, n) <= width {
        n
    } else {
        how_many(costs, base, width, n - 1)
    }
}

/// Machine numbers as plain ones.
pub open spec fn amounts(v: Seq<usize>) -> Seq<nat> {
    v.map_values(|n: usize| n as nat)
}

proof fn lemma_cost_grows(costs: Seq<nat>, a: int, b: int)
    requires
        a <= b,
    ensures
        cost_of_first(costs, a) <= cost_of_first(costs, b),
    decreases b,
{
    if a < b && b > 0 {
        lemma_cost_grows(costs, a, b - 1);
    }
}

proof fn lemma_how_many(costs: Seq<nat>, base: nat, width: nat, n: int, m: int)
    requires
        0 <= m <= n,
        width > 0,
        m > 0 ==> base + cost_of_first(costs, m) <= width,
        m < n ==> base + cost_of_first(costs, m + 1) > width,
    ensures
        how_many(costs, base, width, n) == m,
    decreases n,
{
    if n > m {
        lemma_cost_grows(costs, m + 1, n);
        lemma_how_many(costs, base, width, n - 1, m);
    }
}

/// How many of some segments fit, given what each costs: what does not fit goes, the least important
/// first. Nothing is truncated. Half a token count is a wrong token count.
pub fn fit_count(costs: &Vec<usize>, base: usize, width: usize) -> (r: usize)
    ensures
        r == how_many(amounts(costs@), base as nat, width as nat, costs@.len() as int),
        r <= costs@.len(),
{
    let n = costs.len();
    let ghost cs = amounts(costs@);
    if width == 0 || n == 0 {
        return n;
    }
    if base > width {
        proof {
            lemma_cost_grows(cs, 0, 1);
            lemma_how_many(cs, base as nat, width as nat, n as int, 0);
        }
        return 0;
    }
    let mut left: usize = width - base;
    let mut m: usize = 0;
    while m < n && costs[m] <= left
        invariant
            m <= n,
            n == costs@.len(),
            cs == amounts(costs@),
            base <= width,
            width > 0,
            left == width - base - cost_of_first(cs, m as int),
        decreases n - m,
    {
        left = left - costs[m];
        m = m + 1;
    }
    proof {
        if m < n {
            assert(cs[m as int] == costs@[m as int]);
        }
        lemma_how_many(cs, base as nat, width as nat, n as int, m as int);
    }
    m
}

/// The segments in the order they are shown.
pub open spec fn shown_parts(segs: Seq<Segment>) -> Seq<Part> {
    in_rank(ranks_of(segs), segs.len() as int).map_values(|i: int| part_of(segs[i]))
}

/// What the segments are put in order by.
pub open spec fn ranks_of(segs: Seq<Segment>) -> Seq<Rank> {
    segs.map_values(|s: Segment| (s.priority as int, s.key@))
}

/// The segments that fit, in the order they are shown.
pub open spec fn fitting_parts(mode: Seq<char>, segs: Seq<Segment>, width: nat) -> Seq<Part> {
    let all = shown_parts(segs);
    let costs = all.map_values(|p: Part| cost_of(p));
    all.take(how_many(costs, columns_of(mode) + 3, width, all.len() as int))
}

/// The left half of the line: the mode, what plugins put there, and how to get out where no plugin
/// has put anything anywhere.
pub open spec fn left_half(mode: Seq<char>, parts: Seq<Part>, empty: bool) -> Strip {
    let a = then_coloured(Strip { text: " "@, marks: seq![] }, mode, "Status.Line"@);
    let b = then_parts(a, parts, false);
    if empty {
        then_coloured(b, "  ^C quit"@, "Status.Line"@)
    } else {
        b
    }
}

/// Whether any of some segments goes on the right.
pub open spec fn any_right(parts: Seq<Part>) -> bool {
    exists|i: int| 0 <= i < parts.len() && (#[trigger] parts[i]).right
}

/// The whole line. Segments on the right go to the right edge.
pub open spec fn status_line(mode: Seq<char>, parts: Seq<Part>, empty: bool, width: nat) -> Strip {
    let l = left_half(mode, parts, empty);
    let whole = if any_right(parts) {
        let tail = then_parts(Strip { text: seq![], marks: seq![] }, parts, true).text;
        let used = columns_of(l.text) + columns_of(tail) + 1;
        let padded = if width > used {
            then(l, spaces((width - used) as nat))
        } else {
            l
        };
        then_parts(padded, parts, true)
    } else {
        l
    };
    then(whole, " "@)
}

/// A line of text and the groups that colour its bytes.
#[derive(Debug)]
pub struct Drawn {
    pub text: String,
    pub marks: Vec<(usize, usize, String)>,
}

impl View for Drawn {
    type V = Strip;

    open spec fn view(&self) -> Strip {
        Strip {
            text: self.text@,
            marks: self.marks@.map_values(
                |m: (usize, usize, String)| (m.0 as int, m.1 as int, m.2@),
            ),
        }
    }
}

impl Drawn {
    fn put(&mut self, text: &str)
        ensures
            final(self)@ == then(old(self)@, text@),
    {
        self.text.push_str(text);
    }

    fn put_coloured(&mut self, text: &str, hl: &str)
        ensures
            final(self)@ == then_coloured(old(self)@, text@, hl@),
    {
        let from = bytes_in(self.text.as_str());
        let ghost before = self@;
        self.text.push_str(text);
        let to = bytes_in(self.text.as_str());
        let group = hl.to_owned();
        self.marks.push((from, to, group));
        assert(self@.marks =~= before.marks.push((from as int, to as int, hl@)));
    }

    fn put_segment(&mut self, seg: &Segment)
        ensures
            final(self)@ == then_part(old(self)@, part_of(*seg)),
    {
        self.put("  ");
        match &seg.hl {
            Some(h) => self.put_coloured(seg.text.as_str(), h.as_str()),
            None => self.put_coloured(seg.text.as_str(), "Status.Line"),
        }
        if let Some(k) = &seg.keys {
            if !k.as_str().is_empty() {
                self.put(" ");
                self.put_coloured(k.as_str(), "Composer.HintKey");
            }
        }
    }

    fn put_side(&mut self, segs: &Vec<Segment>, order: &Vec<usize>, n: usize, right: bool)
        requires
            n <= order@.len(),
            forall|i: int| 0 <= i < order@.len() ==> #[trigger] order@[i] < segs@.len(),
        ensures
            final(self)@ == then_parts(
                old(self)@,
                order@.map_values(|i: usize| part_of(segs@[i as int])).take(n as int),
                right,
            ),
    {
        let ghost all = order@.map_values(|i: usize| part_of(segs@[i as int]));
        let ghost start = self@;
        let mut i: usize = 0;
        assert(all.take(0) =~= seq![]);
        while i < n
            invariant
                i <= n,
                n <= order@.len(),
                all == order@.map_values(|i: usize| part_of(segs@[i as int])),
                forall|i: int| 0 <= i < order@.len() ==> #[trigger] order@[i] < segs@.len(),
                self@ == then_parts(start, all.take(i as int), right),
            decreases n - i,
        {
            proof {
                assert(all.take(i + 1).drop_last() =~= all.take(i as int));
                assert(all.take(i + 1).last() == part_of(segs@[order@[i as int] as int]));
            }
            if segs[order[i]].right == right {
                self.put_segment(&segs[order[i]]);
            }
            i = i + 1;
        }
    }
}

/// A number that is as large as a machine number can be where it would not fit in one.
pub open spec fn capped(n: nat) -> nat {
    if n <= usize::MAX {
        n
    } else {
        usize::MAX as nat
    }
}

fn cost(seg: &Segment) -> (r: usize)
    ensures
        r == capped(cost_of(part_of(*seg))),
{
    let w = display_width(seg.text.as_str());
    let extra: usize = match &seg.keys {
        Some(k) => if k.as_str().is_empty() {
            0
        } else {
            display_width(k.as_str()).saturating_add(1)
        },
        None => 0,
    };
    w.saturating_add(2).saturating_add(extra)
}

proof fn lemma_cost_at_least(costs: Seq<nat>, n: int, i: int)
    requires
        0 <= i < n <= costs.len(),
    ensures
        costs[i] <= cost_of_first(costs, n),
    decreases n,
{
    if i < n - 1 {
        lemma_cost_at_least(costs, n - 1, i);
    }
}

proof fn lemma_cost_same(a: Seq<nat>, b: Seq<nat>, n: int)
    requires
        0 <= n <= a.len(),
        a.len() == b.len(),
        forall|i: int| 0 <= i < n ==> a[i] == b[i],
    ensures
        cost_of_first(a, n) == cost_of_first(b, n),
    decreases n,
{
    if n > 0 {
        lemma_cost_same(a, b, n - 1);
    }
}

proof fn lemma_cost_larger(a: Seq<nat>, b: Seq<nat>, n: int)
    requires
        0 <= n <= a.len(),
        a.len() == b.len(),
        forall|i: int| 0 <= i < n ==> a[i] <= b[i],
    ensures
        cost_of_first(a, n) <= cost_of_first(b, n),
    decreases n,
{
    if n > 0 {
        lemma_cost_larger(a, b, n - 1);
    }
}

/// A cost that is too large to count is one that does not fit, so counting it short changes nothing.
proof fn lemma_capped_fit(costs: Seq<nat>, base: nat, width: nat)
    requires
        width <= usize::MAX,
        base >= 3,
        forall|i: int| 0 <= i < costs.len() ==> #[trigger] costs[i] >= 2,
    ensures
        how_many(costs, base, width, costs.len() as int) == how_many(
            costs.map_values(|c: nat| capped(c)),
            capped(base),
            width,
            costs.len() as int,
        ),
{
    let n = costs.len() as int;
    let short = costs.map_values(|c: nat| capped(c));
    if width > 0 {
        the_least_important_go_first(short, capped(base), width, n);
        let m = how_many(short, capped(base), width, n);
        if m > 0 {
            assert forall|i: int| 0 <= i < m implies costs[i] == short[i] by {
                lemma_cost_at_least(short, m, i);
                assert(short[i] == capped(costs[i]));
            }
            lemma_cost_same(costs, short, m);
            lemma_cost_at_least(short, m, 0);
            assert(costs[0] >= 2);
        }
        if m < n {
            assert forall|i: int| 0 <= i < m + 1 implies short[i] <= costs[i] by {
                assert(short[i] == capped(costs[i]));
            }
            lemma_cost_larger(short, costs, m + 1);
        }
        lemma_how_many(costs, base, width, n, m);
    }
}

/// Redraw the status line from the host's own word and whatever plugins contributed.
///
/// Rewritten wholesale rather than patched: it is one short line, and a diffing status bar is a
/// famous source of stale text that nobody notices until a screenshot.
pub fn refresh_status(mode: &str, segs: &Vec<Segment>, width: usize) -> (r: Drawn)
    ensures
        r@ == status_line(
            mode@,
            fitting_parts(mode@, segs@, width as nat),
            segs@.len() == 0,
            width as nat,
        ),
{
    let mut keys: Vec<(i32, String)> = Vec::new();
    let mut i: usize = 0;
    while i < segs.len()
        invariant
            i <= segs@.len(),
            keys@.len() == i,
            forall|j: int|
                0 <= j < i ==> (#[trigger] keys@[j]).0 == segs@[j].priority && keys@[j].1@
                    == segs@[j].key@,
        decreases segs@.len() - i,
    {
        keys.push((segs[i].priority, segs[i].key.clone()));
        i = i + 1;
    }
    assert(ranks(keys@) =~= ranks_of(segs@));
    let order = rank(&keys);
    let ghost all = order@.map_values(|i: usize| part_of(segs@[i as int]));
    let ghost costs_all = all.map_values(|p: Part| cost_of(p));
    proof {
        assert(all =~= shown_parts(segs@)) by {
            assert forall|k: int| 0 <= k < all.len() implies all[k] == shown_parts(segs@)[k] by {
                assert(indices(order@)[k] == order@[k]);
            }
            assert(indices(order@).len() == order@.len());
        }
    }
    let mut costs: Vec<usize> = Vec::new();
    let mut i: usize = 0;
    while i < order.len()
        invariant
            i <= order@.len(),
            order@.len() == segs@.len(),
            forall|i: int| 0 <= i < order@.len() ==> #[trigger] order@[i] < segs@.len(),
            all == order@.map_values(|i: usize| part_of(segs@[i as int])),
            costs@.len() == i,
            forall|j: int| 0 <= j < i ==> #[trigger] costs@[j] == capped(cost_of(all[j])),
        decreases order@.len() - i,
    {
        costs.push(cost(&segs[order[i]]));
        i = i + 1;
    }
    // The mode word, the space each side of the line, and the column that keeps the halves apart.
    let base = display_width(mode).saturating_add(3);
    proof {
        assert(amounts(costs@) =~= costs_all.map_values(|c: nat| capped(c)));
        assert forall|i: int| 0 <= i < costs_all.len() implies #[trigger] costs_all[i] >= 2 by {
            assert(costs_all[i] == cost_of(all[i]));
        }
        lemma_capped_fit(costs_all, columns_of(mode@) + 3, width as nat);
    }
    let n = fit_count(&costs, base, width);
    let ghost parts = all.take(n as int);
    assert(parts == fitting_parts(mode@, segs@, width as nat));

    let marks: Vec<(usize, usize, String)> = Vec::new();
    let mut line = Drawn { text: " ".to_owned(), marks };
    assert(line@.marks =~= seq![]);
    line.put_coloured(mode, "Status.Line");
    line.put_side(segs, &order, n, false);
    if segs.len() == 0 {
        // Before any plugin has contributed, and where none will.
        line.put_coloured("  ^C quit", "Status.Line");
    }
    assert(line@ == left_half(mode@, parts, segs@.len() == 0));
    let mut right = false;
    let mut i: usize = 0;
    while i < n
        invariant
            i <= n,
            n <= order@.len(),
            forall|i: int| 0 <= i < order@.len() ==> #[trigger] order@[i] < segs@.len(),
            all == order@.map_values(|i: usize| part_of(segs@[i as int])),
            parts == all.take(n as int),
            right == (exists|j: int| 0 <= j < i && (#[trigger] parts[j]).right),
        decreases n - i,
    {
        assert(parts[i as int] == part_of(segs@[order@[i as int] as int]));
        if segs[order[i]].right {
            right = true;
            assert(parts[i as int].right);
        }
        i = i + 1;
    }
    if right {
        let none: Vec<(usize, usize, String)> = Vec::new();
        let mut tail = Drawn { text: String::new(), marks: none };
        assert(tail@.marks =~= seq![]);
        assert(tail@.text =~= seq![]);
        tail.put_side(segs, &order, n, true);
        let a = display_width(line.text.as_str());
        let b = display_width(tail.text.as_str());
        if width > 0 && a < width && b < width - a && width - a - b > 1 {
            let ghost before = line@;
            push_spaces(&mut line.text, width - a - b - 1);
            assert(line@ == then(before, spaces((width - (a + b + 1)) as nat)));
        }
        line.put_side(segs, &order, n, true);
    }
    line.put(" ");
    line
}

/// The word for the state the keyboard is in. A key doing something different needs to say so before
/// you press it.
pub fn mode_word(
    entering_key: bool,
    reading: bool,
    anchored: bool,
    shape: SelectShape,
    mode: Mode,
) -> (r: &'static str)
    ensures
        r@ == (if entering_key {
            "key"@
        } else if reading {
            if anchored && shape == SelectShape::Line {
                "visual line"@
            } else if anchored {
                "visual"@
            } else {
                "reading"@
            }
        } else {
            match mode {
                Mode::Chat => "chat"@,
                Mode::Normal => "normal"@,
                Mode::Insert => "insert"@,
                Mode::Visual => "visual"@,
            }
        }),
{
    if entering_key {
        "key"
    } else if reading {
        if anchored && shape == SelectShape::Line {
            "visual line"
        } else if anchored {
            "visual"
        } else {
            "reading"
        }
    } else {
        match mode {
            Mode::Chat => "chat",
            Mode::Normal => "normal",
            Mode::Insert => "insert",
            Mode::Visual => "visual",
        }
    }
}

/// What is left out is always worth less than what is kept: the segments that are shown are the
/// first in order, and one more would not have fitted.
pub proof fn the_least_important_go_first(costs: Seq<nat>, base: nat, width: nat, n: int)
    requires
        0 <= n <= costs.len(),
        width > 0,
    ensures
        ({
            let m = how_many(costs, base, width, n);
            &&& 0 <= m <= n
            &&& m > 0 ==> base + cost_of_first(costs, m) <= width
            &&& m < n ==> base + cost_of_first(costs, m + 1) > width
        }),
    decreases n,
{
    if n > 0 && base + cost_of_first(costs, n) > width {
        the_least_important_go_first(costs, base, width, n - 1);
    }
}

} // verus!
