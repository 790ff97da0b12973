//! What is said on a terminal that is not drawn on, and that nothing is left out of it.

use crate::cli::managing::{all_covered, all_listed, covered_lines, listed_lines, Covered, Listed};
use crate::cli::{
    cut_at, headline, left_aligned, right_aligned, said_aloud, status_lines, turn_line, two_figures,
    with_anything, Status,
};
use crate::host::lining::{is_in, lemma_is_in};
use crate::letters::what_is_found_is_the_first;
use crate::text::{decimal, found_from, is_blank};
use crate::words::joined_with;
use vstd::prelude::*;

verus! {

/// How long something has been is said in hours and minutes, in minutes, or in seconds, whichever is
/// the largest that there is one of.
pub proof fn a_while_is_said_in_the_largest_that_fits(hours: nat, minutes: nat, seconds: nat)
    requires
        minutes < 60,
        seconds < 60,
    ensures
        said_aloud(seconds) == decimal(seconds) + "s"@,
        minutes > 0 ==> said_aloud(60 * minutes + seconds) == decimal(minutes) + "m"@,
        hours > 0 ==> said_aloud(3600 * hours + 60 * minutes + seconds) == decimal(hours) + "h "@
            + two_figures(minutes) + "m"@,
{
    assert((60 * minutes + seconds) / 60 == minutes);
    let all = 3600 * hours + 60 * minutes + seconds;
    assert(all / 3600 == hours);
    assert(all % 3600 == 60 * minutes + seconds);
    assert((60 * minutes + seconds) / 60 == minutes);
}

/// Two figures are two figures.
pub proof fn two_figures_are_two(n: nat)
    requires
        n < 100,
    ensures
        two_figures(n).len() == 2,
        n < 10 ==> two_figures(n)[0] == '0',
        crate::letters::number_written(two_figures(n)) == n,
{
    reveal_strlit("0");
    crate::letters::figures_write_the_number(n);
    let t = two_figures(n);
    reveal_with_fuel(crate::letters::number_written, 3);
    reveal_with_fuel(decimal, 3);
    if n < 10 {
        assert(t.len() == 2);
        assert(t[1] == decimal(n)[0]);
        assert(t.drop_last() =~= seq!['0']);
        assert(seq!['0'].drop_last() =~= seq![]);
        assert(decimal(n).drop_last() =~= seq![]);
    }
}

/// What is set against an edge is as wide as it was told to be, where it is not wider already, with
/// its text against that edge and spaces on the other side.
pub proof fn what_is_aligned_is_against_its_edge(s: Seq<char>, width: int)
    ensures
        s.len() < width ==> left_aligned(s, width).len() == width && right_aligned(s, width).len()
            == width,
        s.len() >= width ==> left_aligned(s, width) == s && right_aligned(s, width) == s,
        s.is_prefix_of(left_aligned(s, width)),
        crate::text::ends(right_aligned(s, width), s),
        forall|i: int| s.len() <= i < left_aligned(s, width).len() ==> #[trigger] left_aligned(
            s,
            width,
        )[i] == ' ',
        forall|i: int|
            0 <= i < right_aligned(s, width).len() - s.len() ==> #[trigger] right_aligned(s, width)[i]
                == ' ',
{
    let l = left_aligned(s, width);
    assert(l.subrange(0, s.len() as int) =~= s);
    let r = right_aligned(s, width);
    assert(r.skip(r.len() - s.len()) =~= s);
}

/// What is running has a line each, that says what it is, where, and for how long; and where nothing
/// is, that is said.
pub proof fn everything_that_runs_has_a_line(s: Status, socket: Seq<char>, i: int)
    ensures
        status_lines(None, socket).len() == 1,
        is_in(status_lines(None, socket)[0], socket),
        status_lines(Some(s), socket).len() == (if s.running@.len() == 0 {
            2
        } else {
            2 + s.running@.len()
        }),
        s.running@.len() == 0 ==> status_lines(Some(s), socket)[1] == "nothing running"@,
        0 <= i < s.running@.len() ==> {
            let line = status_lines(Some(s), socket)[2 + i];
            let t = s.running@[i];
            &&& is_in(line, t.label@)
            &&& is_in(line, t.cwd@)
            &&& is_in(line, said_aloud(t.elapsed_secs as nat))
        },
        status_lines(Some(s), socket)[0] == headline(s),
{
    lemma_is_in("no workspace running ("@, socket, ")"@);
    if 0 <= i < s.running@.len() {
        let t = s.running@[i];
        let line = turn_line(t);
        assert(status_lines(Some(s), socket)[2 + i] == line);
        let none = Seq::<char>::empty();
        let e = said_aloud(t.elapsed_secs as nat);
        let r = right_aligned(e, 8);
        let pad = r.take(r.len() - e.len());
        what_is_aligned_is_against_its_edge(e, 8);
        assert(r =~= pad + e);
        assert(line =~= ("  "@ + r + "  "@) + t.label@ + ("  ("@ + t.cwd@ + ")"@));
        lemma_is_in("  "@ + r + "  "@, t.label@, "  ("@ + t.cwd@ + ")"@);
        assert(line =~= ("  "@ + r + "  "@ + t.label@ + "  ("@) + t.cwd@ + ")"@);
        lemma_is_in("  "@ + r + "  "@ + t.label@ + "  ("@, t.cwd@, ")"@);
        assert(line =~= ("  "@ + pad) + e + ("  "@ + t.label@ + "  ("@ + t.cwd@ + ")"@));
        lemma_is_in("  "@ + pad, e, "  "@ + t.label@ + "  ("@ + t.cwd@ + ")"@);
    }
}

/// The first line says how long the workspace has been up, how many conversations there are, and
/// whether somebody is watching.
pub proof fn the_headline_says_how_the_workspace_is(s: Status)
    ensures
        is_in(headline(s), said_aloud(s.uptime_secs as nat)),
        s.attached ==> is_in(headline(s), "a terminal is attached"@),
        !s.attached ==> is_in(
            headline(s),
            "nobody watching for "@ + said_aloud(s.idle_secs as nat),
        ),
        s.conversations == 1 ==> is_in(headline(s), decimal(1) + " "@ + "conversation"@),
        s.conversations != 1 ==> is_in(
            headline(s),
            decimal(s.conversations as nat) + " "@ + "conversations"@,
        ),
{
    let h = headline(s);
    let none = Seq::<char>::empty();
    let up = said_aloud(s.uptime_secs as nat);
    let many = if s.conversations == 1 {
        "conversation"@
    } else {
        "conversations"@
    };
    let n = decimal(s.conversations as nat);
    let who = if s.attached {
        "a terminal is attached"@
    } else {
        "nobody watching for "@ + said_aloud(s.idle_secs as nat)
    };
    let a = "running  \u{b7}  up "@;
    let dot = "  \u{b7}  "@;
    assert(h =~= a + up + (dot + n + " "@ + many + dot + who));
    lemma_is_in(a, up, dot + n + " "@ + many + dot + who);
    assert(h =~= (a + up + dot + n + " "@ + many + dot) + who + none);
    lemma_is_in(a + up + dot + n + " "@ + many + dot, who, none);
    assert(h =~= (a + up + dot) + (n + " "@ + many) + (dot + who));
    lemma_is_in(a + up + dot, n + " "@ + many, dot + who);
}

/// Some texts with another between one and the next, from the front.
pub open spec fn rejoined(v: Seq<Seq<char>>, by: Seq<char>) -> Seq<char>
    decreases v.len(),
{
    if v.len() == 0 {
        seq![]
    } else if v.len() == 1 {
        v[0]
    } else {
        v[0] + by + rejoined(v.skip(1), by)
    }
}

/// What a text is cut into is the text again with what it was cut at between, and no piece holds
/// that.
pub proof fn what_is_cut_can_be_joined_again(s: Seq<char>, by: Seq<char>)
    requires
        by.len() > 0,
    ensures
        cut_at(s, by).len() > 0,
        rejoined(cut_at(s, by), by) == s,
        forall|k: int|
            0 <= k < cut_at(s, by).len() ==> found_from(#[trigger] cut_at(s, by)[k], 0, by) is None,
    decreases s.len(),
{
    what_is_found_is_the_first(s, 0, by);
    let all = cut_at(s, by);
    match found_from(s, 0, by) {
        Some(i) => {
            let rest = s.skip(i + by.len());
            what_is_cut_can_be_joined_again(rest, by);
            let tail = cut_at(rest, by);
            let head = s.take(i);
            assert(all == seq![head] + tail);
            assert(all.skip(1) =~= tail);
            assert(s =~= head + by + rest);
            assert(found_from(head, 0, by) is None) by {
                what_is_found_is_the_first(head, 0, by);
                if let Some(j) = found_from(head, 0, by) {
                    assert(s.subrange(j, j + by.len()) =~= head.subrange(j, j + by.len()));
                }
            }
            assert forall|k: int| 0 <= k < all.len() implies found_from(
                #[trigger] all[k],
                0,
                by,
            ) is None by {
                if k > 0 {
                    assert(all[k] == tail[k - 1]);
                }
            }
        },
        None => {
            assert(all =~= seq![s]);
        },
    }
}

/// Only what has nothing on it is left out.
pub proof fn only_what_is_blank_is_left_out(v: Seq<Seq<char>>, s: Seq<char>)
    ensures
        with_anything(v).contains(s) == (v.contains(s) && !is_blank(s)),
{
    let f = |s: Seq<char>| !is_blank(s);
    assert(with_anything(v) == v.filter(f));
    if v.contains(s) && f(s) {
        let i = choose|i: int| 0 <= i < v.len() && v[i] == s;
        v.lemma_filter_contains(f, i);
    }
    if v.filter(f).contains(s) {
        let i = choose|i: int| 0 <= i < v.filter(f).len() && v.filter(f)[i] == s;
        v.lemma_filter_contains_rev(f, s);
        v.lemma_filter_pred(f, i);
    }
}

/// A plugin is listed with its name, its version, where it comes from and what it may do, and under
/// that where it is and what it was cloned from, where that is known.
pub proof fn a_plugin_is_listed_whole(p: Listed)
    ensures
        ({
            let v = listed_lines(p);
            &&& p.name@.is_prefix_of(v[0])
            &&& is_in(v[0], p.version@)
            &&& is_in(v[0], p.origin@)
            &&& p.permissions@.len() > 0 ==> is_in(
                v[0],
                joined_with(crate::cli::permission_words(p.permissions@), " "@),
            )
            &&& v.len() == 1 + (if p.dir is Some {
                1int
            } else {
                0
            }) + (if p.remote is Some {
                1int
            } else {
                0
            })
            &&& p.dir is Some ==> crate::text::ends(v[1], p.dir->0@)
            &&& p.remote is Some ==> crate::text::ends(v.last(), p.remote->0@)
        }),
{
    let v = listed_lines(p);
    let none = Seq::<char>::empty();
    let name = left_aligned(p.name@, 20);
    let version = left_aligned(p.version@, 10);
    let words = joined_with(crate::cli::permission_words(p.permissions@), " "@);
    let may = if p.permissions@.len() == 0 {
        ""@
    } else {
        "  ["@ + words + "]"@
    };
    what_is_aligned_is_against_its_edge(p.name@, 20);
    what_is_aligned_is_against_its_edge(p.version@, 10);
    assert(v[0] == name + " "@ + version + " "@ + p.origin@ + may);
    assert(v[0].subrange(0, p.name@.len() as int) =~= name.subrange(0, p.name@.len() as int));
    let pad = version.skip(p.version@.len() as int);
    assert(version =~= p.version@ + pad) by {
        assert(version.subrange(0, p.version@.len() as int) == p.version@);
    }
    assert(v[0] =~= (name + " "@) + p.version@ + (pad + " "@ + p.origin@ + may));
    lemma_is_in(name + " "@, p.version@, pad + " "@ + p.origin@ + may);
    lemma_is_in(name + " "@ + version + " "@, p.origin@, may);
    if p.permissions@.len() > 0 {
        assert(v[0] =~= (name + " "@ + version + " "@ + p.origin@ + "  ["@) + words + "]"@);
        lemma_is_in(name + " "@ + version + " "@ + p.origin@ + "  ["@, words, "]"@);
    }
    if p.dir is Some {
        assert(v[1].skip(v[1].len() - p.dir->0@.len()) =~= p.dir->0@);
    }
    if p.remote is Some {
        let l = v.last();
        assert(l.skip(l.len() - p.remote->0@.len()) =~= p.remote->0@);
    }
}

/// Every plugin is listed, one after another.
pub proof fn every_plugin_is_listed(v: Seq<Listed>, p: Listed)
    ensures
        all_listed(v.push(p)) == all_listed(v) + listed_lines(p),
        all_listed(Seq::<Listed>::empty()).len() == 0,
{
    assert(v.push(p).drop_last() =~= v);
}

/// Every file that would be trusted is shown, with what is in it where that can be shown.
pub proof fn every_covered_file_is_shown(v: Seq<Covered>, f: Covered)
    ensures
        all_covered(v.push(f)) == all_covered(v) + covered_lines(f),
        is_in(covered_lines(f)[0], f.0@),
        (covered_lines(f).len() == 2) == (f.1 is Some),
        covered_lines(f).len() >= 1,
        match f.1 {
            Some(t) => covered_lines(f)[1] == crate::text::trim_end_of(t@),
            None => true,
        },
{
    assert(v.push(f).drop_last() =~= v);
    lemma_is_in("--- "@, f.0@, " ---"@);
    lemma_is_in("--- "@, f.0@, " --- (not shown)"@);
}

} // verus!
