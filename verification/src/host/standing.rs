//! What holds of the smaller things that a workspace decides.

use crate::host::calls::{
    alone, is_served_by, kept_under, seen_as, undeclared, AttachmentInfo, Call, Known, Served,
};
use crate::host::chat::{spliced, ChatState};
use crate::host::choosing::an_instance_is_found_by_its_name;
use crate::host::composer::{hint_ranks, hints_in_order, Hint};
use crate::host::copying::{is_copy, Copied};
use crate::host::desk::{folders_after, hints_after, segments_after};
use crate::host::kept::{all_differ, segment_names, segments_without};
use crate::host::lining::{
    a_name_is_found_where_it_stands, is_in, lemma_is_in,
};
use crate::host::models::{
    is_usable, moved_said, nowhere_said, Instance, Selection,
};
use crate::host::prompts::caret_after;
use crate::host::questions::with_gap;
use crate::host::rounds::{turn_of, Turn};
use crate::host::screen::Line;
use crate::host::startup::Startup;
use crate::host::status::{cost_of, Part, Segment};
use crate::host::view::{in_block, is_block, is_destination};
use crate::host::reading::Motion;
use crate::images::keeping::is_fitted;
use crate::images::naming::{named_by, names_picture};
use crate::images::{size_said, Attachment};
use crate::measure::columns_of;
use crate::notify::quoting::{between, doubled, mac_script, slashed, toast_script};
use crate::text::{decimal, is_blank, split_on, width_in_bytes};
use crate::words::{joined_with, lines_of};
use crate::host::company::a_stranger_is_found_by_its_key;
use crate::host::lining::lemma_order;
use crate::host::peers::{firsts, place_ranks, places, seen, strangers_after, Placed, SwarmEvent};
use crate::host::rank::{comes_before, in_rank, reads_before, the_order_is_one};
use crate::host::swarm::{stranger_among, Stranger, Swarm};
use vstd::prelude::*;

verus! {

// ---- plugins ----------------------------------------------------------------

/// An instance is a plugin's own where one of the plugin's drivers serves it, and otherwise not.
pub proof fn an_instance_is_its_drivers_own(
    v: Seq<Served>,
    drivers: Seq<Seq<char>>,
    instance: Seq<char>,
    i: int,
)
    ensures
        0 <= i < v.len() && v[i].instance@ == instance && drivers.contains(v[i].driver@)
            ==> is_served_by(v, drivers, instance),
        drivers.len() == 0 ==> !is_served_by(v, drivers, instance),
        (forall|j: int| 0 <= j < v.len() ==> (#[trigger] v[j]).instance@ != instance)
            ==> !is_served_by(v, drivers, instance),
{
}

/// What was not declared is told by its name, with who asked for it and what to write where.
pub proof fn what_was_not_declared_is_named(name: Seq<char>, plugin: Seq<char>)
    ensures
        name.is_prefix_of(undeclared(name, plugin)),
        is_in(undeclared(name, plugin), "(plugin "@ + plugin),
        is_in(undeclared(name, plugin), "add \""@ + name + "\" to the permissions list"@),
{
    let u = undeclared(name, plugin);
    reveal_strlit(" (plugin ");
    reveal_strlit("(plugin ");
    reveal_strlit(" did not declare it \u{2014} add \"");
    reveal_strlit("add \"");
    reveal_strlit("\" to the permissions list in its plugin.toml)");
    reveal_strlit("\" to the permissions list");
    let a = " (plugin "@;
    let b = " did not declare it \u{2014} add \""@;
    let c = "\" to the permissions list in its plugin.toml)"@;
    assert(a =~= seq![' '] + "(plugin "@);
    let x = "(plugin "@ + plugin;
    assert(u =~= (name + seq![' ']) + x + (b + name + c));
    lemma_is_in(name + seq![' '], x, b + name + c);
    let cut = b.len() - "add \""@.len();
    let b0 = b.take(cut);
    assert(b =~= b0 + "add \""@);
    let c1 = c.skip("\" to the permissions list"@.len() as int);
    assert(c =~= "\" to the permissions list"@ + c1);
    let y = "add \""@ + name + "\" to the permissions list"@;
    assert(u =~= (name + a + plugin + b0) + y + c1);
    lemma_is_in(name + a + plugin + b0, y, c1);
    assert(u.subrange(0, name.len() as int) =~= name);
}

/// What a plugin is told of a picture is what the picture is.
pub proof fn a_picture_is_seen_as_it_is(i: AttachmentInfo, a: Attachment)
    requires
        seen_as(i, a),
    ensures
        i.path@ == a.path@ && i.media_type@ == a.media_type@,
        i.width == a.width && i.height == a.height,
        a.bytes <= u32::MAX ==> i.bytes == a.bytes,
        a.bytes > u32::MAX ==> i.bytes == u32::MAX,
{
}

/// A new conversation is made before the only one is left, and not where there is another to go to.
pub proof fn there_is_always_somewhere_to_go(listed: Seq<String>, leaving: Seq<char>)
    ensures
        alone(listed, leaving) == !(exists|i: int|
            0 <= i < listed.len() && (#[trigger] listed[i])@ != leaving),
{
}

/// What a plugin sets is under its own name, and what it sets no other call changes.
pub proof fn only_setting_and_clearing_change_what_is_shown(
    hints: Seq<Hint>,
    hints_now: Seq<Hint>,
    segs: Seq<Segment>,
    segs_now: Seq<Segment>,
    dirs: Seq<Seq<char>>,
    dirs_now: Seq<Seq<char>>,
    call: Call,
    k: Known,
)
    requires
        hints_after(hints, call, k.plugin@, hints_now),
        segments_after(segs, call, k.plugin@, segs_now),
        folders_after(dirs, call, k, dirs_now),
    ensures
        !(call is HintSet) && !(call is HintClear) ==> hints_now == hints,
        !(call is StatusSet) && !(call is StatusClear) ==> segs_now == segs,
        !(call is RtpAdd) || k.discovered ==> dirs_now == dirs,
        call is StatusSet ==> exists|i: int|
            0 <= i < segs_now.len() && (#[trigger] segs_now[i]).key@ == kept_under(
                k.plugin@,
                call->StatusSet_0@,
            ) && segs_now[i].text == call->StatusSet_1.text && segs_now[i].priority
                == call->StatusSet_1.priority && segs_now[i].right == call->StatusSet_1.right,
        call is HintSet ==> exists|i: int|
            0 <= i < hints_now.len() && (#[trigger] hints_now[i]).key@ == kept_under(
                k.plugin@,
                call->HintSet_0@,
            ) && hints_now[i].keys == call->HintSet_1 && hints_now[i].label == call->HintSet_2
                && hints_now[i].priority == call->HintSet_3,
        dirs.is_prefix_of(dirs_now),
{
    match call {
        Call::StatusSet(key, segment) => {
            let name = kept_under(k.plugin@, key@);
            a_name_is_found_where_it_stands(segment_names(segs), name);
            match crate::host::kept::name_among(segment_names(segs), name) {
                Some(i) => {
                    assert(segs_now[i].key@ == name);
                },
                None => {
                    assert(segs_now[segs_now.len() - 1].key@ == name);
                },
            }
        },
        Call::HintSet(key, keys, label, priority) => {
            let name = kept_under(k.plugin@, key@);
            let names = crate::host::kept::hint_names(hints);
            a_name_is_found_where_it_stands(names, name);
            match crate::host::kept::name_among(names, name) {
                Some(i) => {
                    assert(hints_now[i].key@ == name);
                },
                None => {
                    assert(hints_now[hints_now.len() - 1].key@ == name);
                },
            }
        },
        _ => {},
    }
    assert(dirs.subrange(0, dirs.len() as int) =~= dirs);
}

/// A segment that is cleared is gone, and no other is.
pub proof fn a_segment_is_cleared_alone(was: Seq<Segment>, name: Seq<char>, other: Segment)
    requires
        all_differ(segment_names(was)),
        other.key@ != name,
    ensures
        was.contains(other) == segments_without(was, name).contains(other),
        forall|i: int|
            0 <= i < segments_without(was, name).len() ==> (#[trigger] segments_without(
                was,
                name,
            )[i]).key@ != name,
{
    let names = segment_names(was);
    a_name_is_found_where_it_stands(names, name);
    match crate::host::kept::name_among(names, name) {
        Some(i) => {
            let left = was.remove(i);
            assert(names[i] == was[i].key@);
            if was.contains(other) {
                let j = choose|j: int| 0 <= j < was.len() && was[j] == other;
                if j < i {
                    assert(left[j] == other);
                } else {
                    assert(left[j - 1] == other);
                }
            }
            if left.contains(other) {
                let j = choose|j: int| 0 <= j < left.len() && left[j] == other;
                if j < i {
                    assert(was[j] == other);
                } else {
                    assert(was[j + 1] == other);
                }
            }
            assert forall|j: int| 0 <= j < left.len() implies (#[trigger] left[j]).key@ != name by {
                if j < i {
                    assert(names[j] != names[i]);
                    assert(names[j] == left[j].key@);
                } else {
                    assert(names[i] != names[j + 1]);
                    assert(names[j + 1] == left[j].key@);
                }
            }
        },
        None => {
            assert forall|j: int| 0 <= j < was.len() implies (#[trigger] was[j]).key@ != name by {
                assert(names[j] == was[j].key@);
            }
        },
    }
}

// ---- code and copies --------------------------------------------------------

/// A row is in a code block where it is code, or is the header of the row under it that is; the block
/// is every row of code about it, and no row beside it is code.
pub proof fn a_block_is_all_the_code_about_a_row(
    code: Seq<bool>,
    header: Seq<bool>,
    row: int,
    from: int,
    to: int,
)
    requires
        code.len() == header.len(),
        in_block(code, header, row),
        is_block(code, header, row, from, to),
    ensures
        from < to,
        code[row] ==> from <= row < to,
        !code[row] ==> header[row] && from == row + 1,
        forall|i: int| from <= i < to ==> #[trigger] code[i],
        from > 0 ==> !code[from - 1],
        to < code.len() ==> !code[to],
{
}

/// What is copied is what was there, with one line after another, and what is said names it; where
/// there is nothing, that is said and nothing is copied.
pub proof fn a_copy_is_refused_only_where_there_is_nothing(
    lines: Seq<Seq<char>>,
    from: int,
    to: int,
    what: Seq<char>,
    r: Copied,
)
    requires
        0 <= from <= to <= lines.len(),
        is_copy(lines, from, to, what, false, r),
    ensures
        (r is Refuse) == is_blank(joined_with(lines.subrange(from, to), "\n"@)),
        r is Copy ==> r->Copy_0@ == joined_with(lines.subrange(from, to), "\n"@),
        r is Copy ==> is_in(r->Copy_1@, what),
        r is Refuse ==> is_in(r->Refuse_0@, what),
{
    assert(crate::host::view::copied(lines, from, to, false) =~= lines.subrange(from, to));
    lemma_is_in("nothing to copy \u{2014} no "@, what, " here"@);
    match r {
        Copied::Copy(t, said) => {
            let n = lines.subrange(from, to).len();
            let s = if n == 1 {
                ""@
            } else {
                "s"@
            };
            let tail = " \u{2014} "@ + decimal(n) + " line"@ + s;
            assert(said@ =~= "copied "@ + what + tail);
            lemma_is_in("copied "@, what, tail);
        },
        _ => {},
    }
}

/// A destination is somewhere to be, which is no further for going there twice: a motion that goes by
/// characters, words or rows is none.
pub proof fn a_destination_is_a_place(m: Motion)
    ensures
        is_destination(m) == !(m is Left || m is Right || m is Up || m is Down || m is WordRight
            || m is WordLeft || m is WordEnd || m is WordEndBack || m is LineStart
            || m is FirstNonBlank || m is LastNonBlank || m is LineEnd || m is MatchPair
            || m is Find),
{
}

// ---- models -----------------------------------------------------------------

/// A model is usable where the instance that it names is there and a turn sent to it could
/// authenticate.
pub proof fn a_model_is_usable_where_its_instance_is(v: Seq<Instance>, s: Selection)
    ensures
        is_usable(v, s) ==> exists|i: int|
            0 <= i < v.len() && (#[trigger] v[i]).id@ == s.instance@ && v[i].usable,
        (forall|i: int| 0 <= i < v.len() ==> (#[trigger] v[i]).id@ != s.instance@) ==> !is_usable(
            v,
            s,
        ),
        (forall|i: int| 0 <= i < v.len() ==> (#[trigger] v[i]).usable) && (exists|i: int|
            0 <= i < v.len() && (#[trigger] v[i]).id@ == s.instance@) ==> is_usable(v, s),
{
    an_instance_is_found_by_its_name(v, s.instance@);
}

/// What is said of a model that is left names it, and the one that is used instead.
pub proof fn a_move_names_both_models(current: Selection, instance: Seq<char>, model: Seq<char>)
    ensures
        (current.instance@ + "/"@ + current.model@).is_prefix_of(
            moved_said(current, (instance, model)),
        ),
        is_in(moved_said(current, (instance, model)), instance + "/"@ + model),
        current.instance@.is_prefix_of(nowhere_said(current)),
{
    let s = moved_said(current, (instance, model));
    let a = current.instance@ + "/"@ + current.model@;
    assert(s.subrange(0, a.len() as int) =~= a);
    let mid = " cannot authenticate \u{2014} using "@;
    let next = instance + "/"@ + model;
    assert(s =~= (a + mid) + next + " instead."@);
    lemma_is_in(a + mid, next, " instead."@);
    let n = nowhere_said(current);
    assert(n.subrange(0, current.instance@.len() as int) =~= current.instance@);
}

// ---- starting up ------------------------------------------------------------

/// A workspace is still starting while a script activates, while a plugin does, and until plugins have
/// been looked for.
pub proof fn a_workspace_is_up_once_nothing_loads(s: Startup)
    ensures
        !s.in_flight() == (s.active is None && s.loading == 0 && s.discovered),
{
}

/// A part costs two columns more than its text, and one more than its key where it has one.
pub proof fn a_part_costs_what_it_takes(p: Part)
    ensures
        p.keys.len() == 0 ==> cost_of(p) == columns_of(p.text) + 2,
        p.keys.len() > 0 ==> cost_of(p) == columns_of(p.text) + columns_of(p.keys) + 3,
{
}

/// Hints are shown in order of how much they matter, every one of them.
pub proof fn hints_are_in_order_of_what_matters(hints: Seq<Hint>)
    ensures
        hints_in_order(hints).len() == hints.len(),
        ({
            let order = in_rank(hint_ranks(hints), hints.len() as int);
            &&& forall|i: int, j: int|
                0 <= i < j < order.len() ==> hints[#[trigger] order[i]].priority
                    <= hints[#[trigger] order[j]].priority
            &&& forall|i: int|
                0 <= i < order.len() ==> #[trigger] hints_in_order(hints)[i].keys
                    == hints[order[i]].keys@ && hints_in_order(hints)[i].label
                    == hints[order[i]].label@
        }),
{
    let ks = hint_ranks(hints);
    let n = hints.len() as int;
    the_order_is_one(ks, n);
    lemma_order(ks, n);
    let order = in_rank(ks, n);
    assert forall|i: int, j: int| 0 <= i < j < order.len() implies hints[#[trigger] order[i]].priority
        <= hints[#[trigger] order[j]].priority by {
        assert(!comes_before(ks[order[j]], ks[order[i]]));
    }
}

/// The directories that conversations are in are shown in the order that their projects read in, each
/// of them and nothing else.
pub proof fn directories_are_in_the_order_they_read_in(v: Seq<Placed>, i: int, j: int)
    requires
        0 <= i < j < places(v).len(),
    ensures
        places(v).len() == firsts(v).len(),
        firsts(v).contains(places(v)[i]),
        !reads_before(v[places(v)[j]].project@, v[places(v)[i]].project@),
{
    let f = firsts(v);
    let ks = place_ranks(v, f);
    let n = f.len() as int;
    the_order_is_one(ks, n);
    lemma_order(ks, n);
    let order = in_rank(ks, n);
    assert(f[order[i]] == places(v)[i]);
    assert(!comes_before(ks[order[j]], ks[order[i]]));
}

/// A machine that asks to join is remembered as it calls itself, once, and no other is forgotten or
/// changed for it; where it is, only where it was dialled.
pub proof fn a_stranger_is_remembered_once(
    s: Swarm,
    id: String,
    name: String,
    dialled: bool,
    addr: Option<String>,
    now: Seq<Stranger>,
)
    requires
        strangers_after(s, SwarmEvent::Stranger(id, name, dialled), addr, now),
    ensures
        exists|i: int|
            {
                &&& 0 <= i < now.len()
                &&& (#[trigger] now[i]).id@ == id@ && now[i].name@ == name@
                &&& now[i].dialled == dialled
                &&& !dialled ==> now[i].addr is None
            },
        now.len() == s.strangers@.len() + (if exists|i: int|
            0 <= i < s.strangers@.len() && (#[trigger] s.strangers@[i]).id@ == id@ {
            0int
        } else {
            1
        }),
        forall|j: int|
            0 <= j < s.strangers@.len() && (#[trigger] s.strangers@[j]).id@ != id@ ==> now[j]
                == s.strangers@[j],
{
    a_stranger_is_found_by_its_key(s.strangers@, id@);
    match stranger_among(s.strangers@, id@) {
        Some(i) => {
            assert(seen(now[i]).0 == id@);
            assert(now[i].id@ == id@);
        },
        None => {
            let n = now.len() - 1;
            assert(now[n].id@ == id@);
            assert forall|j: int| 0 <= j < s.strangers@.len() && (#[trigger] s.strangers@[j]).id@
                != id@ implies now[j] == s.strangers@[j] by {
                assert(now.drop_last()[j] == now[j]);
            }
        },
    }
}

/// The cursor is behind the text: on its last line, and past the last of that.
pub proof fn the_cursor_is_behind_the_text(text: Seq<char>)
    ensures
        (caret_after(text).0 == 0) == (lines_of(text).len() <= 1),
        lines_of(text).len() > 0 ==> caret_after(text).0 + 1 == lines_of(text).len(),
        (forall|i: int| 0 <= i < text.len() ==> #[trigger] text[i] != '\n') ==> caret_after(text).1
            == width_in_bytes(text),
{
    if forall|i: int| 0 <= i < text.len() ==> #[trigger] text[i] != '\n' {
        crate::text::lemma_position(text, '\n', text.len() as int);
        assert(split_on(text, '\n') =~= seq![text]);
    }
}

// ---- turns ------------------------------------------------------------------

/// The turn of a conversation is found by its name, and not found only where it has none.
pub proof fn a_turn_is_found_by_its_conversation(turns: Seq<Turn>, session: Seq<char>)
    ensures
        match turn_of(turns, session) {
            Some(i) => 0 <= i < turns.len() && turns[i].session.0@ == session,
            None => forall|i: int| 0 <= i < turns.len() ==> (#[trigger] turns[i]).session.0@
                != session,
        },
    decreases turns.len(),
{
    if turns.len() > 0 && turns.last().session.0@ != session {
        let front = turns.drop_last();
        a_turn_is_found_by_its_conversation(front, session);
        if turn_of(front, session) is None {
            assert forall|i: int| 0 <= i < turns.len() implies (#[trigger] turns[i]).session.0@
                != session by {
                if i < front.len() {
                    assert(front[i] == turns[i]);
                }
            }
        }
    }
}

/// Rows that are put in somewhere are there, and what was above and below them still is.
pub proof fn rows_put_in_push_nothing_out(s: ChatState, at: int, rows: Seq<Line>, i: int)
    requires
        s.answer is None,
        rows.len() > 0,
        0 <= at <= s.shown.lines.len(),
        0 <= i < s.shown.lines.len(),
    ensures
        ({
            let t = spliced(s, at, rows);
            &&& t.shown.lines.len() == s.shown.lines.len() + rows.len()
            &&& i < at ==> t.shown.lines[i] == s.shown.lines[i]
            &&& i >= at ==> t.shown.lines[i + rows.len()] == s.shown.lines[i]
            &&& t.cards.len() == s.cards.len()
            &&& s.unanswered is Some && s.unanswered->0 >= at ==> t.unanswered == Some(
                s.unanswered->0 + rows.len(),
            )
            &&& s.unanswered is Some && s.unanswered->0 < at ==> t.unanswered == s.unanswered
        }),
{
}

/// What stands off from what is above it does so by one empty row, and otherwise it is as it was.
pub proof fn rows_stand_off_by_one_row(rows: Seq<Line>)
    ensures
        with_gap(false, rows) == rows,
        with_gap(true, rows).len() == rows.len() + 1,
        with_gap(true, rows)[0].text.len() == 0,
        with_gap(true, rows).skip(1) == rows,
{
    assert(with_gap(true, rows).skip(1) =~= rows);
}

// ---- pictures ---------------------------------------------------------------

/// A picture that is brought down is brought down to its long edge, and its short one with it, to
/// within half a pixel.
pub proof fn a_picture_keeps_its_proportions(w: u32, h: u32, edge: u32, w2: u32, h2: u32)
    requires
        0 < w && 0 < h,
        is_fitted(w, h, edge, w2, h2),
    ensures
        w2 <= edge && h2 <= edge,
        w2 == edge || h2 == edge,
        w >= h ==> w2 == edge,
        h >= w ==> h2 == edge,
        w >= h && h2 > 1 ==> 2 * (h2 * w - h * edge) <= w && 2 * (h * edge - h2 * w) <= w,
        h >= w && w2 > 1 ==> 2 * (w2 * h - w * edge) <= h && 2 * (w * edge - w2 * h) <= h,
{
}

/// The chip of a picture says what it is, how many pixels across and down, and how big.
pub proof fn a_chip_says_what_is_attached(a: Attachment)
    ensures
        is_in(a.labelled(), decimal(a.width as nat) + "\u{d7}"@ + decimal(a.height as nat)),
        is_in(a.labelled(), size_said(a.bytes as nat)),
        crate::images::kind_said(a.media_type@).is_prefix_of(a.labelled()),
{
    let l = a.labelled();
    let kind = crate::images::kind_said(a.media_type@);
    let size = decimal(a.width as nat) + "\u{d7}"@ + decimal(a.height as nat);
    let tail = " \u{b7} "@ + size_said(a.bytes as nat);
    let none = Seq::<char>::empty();
    assert(l =~= (kind + " "@) + size + tail);
    lemma_is_in(kind + " "@, size, tail);
    assert(l =~= (kind + " "@ + size + " \u{b7} "@) + size_said(a.bytes as nat) + none);
    lemma_is_in(kind + " "@ + size + " \u{b7} "@, size_said(a.bytes as nat), none);
    assert(l.subrange(0, kind.len() as int) =~= kind);
}

/// A list of addresses names each of them, a page names its pictures, and any other text names itself
/// where it names a picture, and nothing otherwise.
pub proof fn plain_text_names_itself_or_nothing(kind: Seq<char>, text: Seq<char>, on_disk: bool)
    requires
        kind != "text/uri-list"@,
        kind != "text/html"@,
    ensures
        named_by(kind, text, on_disk).len() <= 1,
        (named_by(kind, text, on_disk).len() == 1) == names_picture(text, on_disk),
        named_by(kind, text, on_disk).len() == 1 ==> named_by(kind, text, on_disk)[0]
            == crate::text::trim_of(text),
        names_picture(text, true) == (crate::text::trim_of(text).len() > 0 && lines_of(
            crate::text::trim_of(text),
        ).len() == 1),
        is_blank(text) ==> !names_picture(text, on_disk),
{
    if is_blank(text) {
        crate::text::lemma_trim_blank(text);
    }
}

// ---- saying it on a desktop -------------------------------------------------

/// What goes to a desktop says what was to be said, quoted for whoever reads it there, the title and
/// the body each in its place.
pub proof fn a_script_says_the_title_and_the_body(title: Seq<char>, body: Seq<char>)
    ensures
        is_in(mac_script(title, body), between('"', slashed(body))),
        is_in(mac_script(title, body), " with title "@ + between('"', slashed(title))),
        is_in(toast_script(title, body), between('\'', doubled(title))),
        is_in(toast_script(title, body), between('\'', doubled(body))),
{
    let none = Seq::<char>::empty();
    let b = between('"', slashed(body));
    let t = " with title "@ + between('"', slashed(title));
    let m = mac_script(title, body);
    assert(m =~= "display notification "@ + b + t);
    lemma_is_in("display notification "@, b, t);
    assert(m =~= ("display notification "@ + b) + t + none);
    lemma_is_in("display notification "@ + b, t, none);
    let x = between('\'', doubled(title));
    let y = between('\'', doubled(body));
    let head = crate::notify::quoting::TOAST_HEAD@;
    let mid = crate::notify::quoting::TOAST_MIDDLE@;
    let tail = crate::notify::quoting::TOAST_TAIL@;
    let s = toast_script(title, body);
    assert(s =~= head + x + (mid + y + tail));
    lemma_is_in(head, x, mid + y + tail);
    assert(s =~= (head + x + mid) + y + tail);
    lemma_is_in(head + x + mid, y, tail);
}

} // verus!
