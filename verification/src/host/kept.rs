//! What plugins put on the rows of the screen, and what is attached to a message that has not been
//! sent. Each thing is kept under a name of its own, and there is one of each.

use crate::host::calls::{kept_under, namespaced};
use crate::host::composer::Hint;
use crate::host::status::Segment;
use crate::images::Attachment;
use crate::notify::SessionId;
use crate::text::{begins, chars_of, same_text, starts_with};
use crate::words::concat;
use vstd::prelude::*;

verus! {

/// The first of some names that is `key`.
pub open spec fn name_among(names: Seq<Seq<char>>, key: Seq<char>) -> Option<int>
    decreases names.len(),
{
    if names.len() == 0 {
        None
    } else {
        match name_among(names.drop_last(), key) {
            Some(i) => Some(i),
            None => if names.last() == key {
                Some(names.len() - 1)
            } else {
                None
            },
        }
    }
}

/// Whether no name is there twice.
pub open spec fn all_differ(names: Seq<Seq<char>>) -> bool {
    forall|i: int, j: int|
        0 <= i < j < names.len() ==> #[trigger] names[i] != #[trigger] names[j]
}

proof fn lemma_name_among(names: Seq<Seq<char>>, key: Seq<char>)
    ensures
        match name_among(names, key) {
            Some(i) => 0 <= i < names.len() && names[i] == key,
            None => !names.contains(key),
        },
    decreases names.len(),
{
    if names.len() > 0 {
        lemma_name_among(names.drop_last(), key);
        if name_among(names.drop_last(), key) is None && names.last() != key {
            if names.contains(key) {
                let k = choose|k: int| 0 <= k < names.len() && names[k] == key;
                if k < names.len() - 1 {
                    assert(names.drop_last()[k] == key);
                }
            }
        }
    }
}

proof fn lemma_found_early(names: Seq<Seq<char>>, key: Seq<char>, n: int)
    requires
        0 <= n <= names.len(),
        name_among(names.take(n), key) is Some,
    ensures
        name_among(names, key) == name_among(names.take(n), key),
    decreases names.len(),
{
    if n == names.len() {
        assert(names.take(n) =~= names);
    } else {
        assert(names.drop_last().take(n) =~= names.take(n));
        lemma_found_early(names.drop_last(), key, n);
    }
}

// ---- shortcuts --------------------------------------------------------------

/// The names some shortcuts are kept under.
pub open spec fn hint_names(v: Seq<Hint>) -> Seq<Seq<char>> {
    v.map_values(|h: Hint| h.key@)
}

fn find_hint(v: &Vec<Hint>, key: &str) -> (r: Option<usize>)
    ensures
        match r {
            Some(i) => i < v@.len() && name_among(hint_names(v@), key@) == Some(i as int),
            None => name_among(hint_names(v@), key@) is None,
        },
{
    let ghost names = hint_names(v@);
    let mut i: usize = 0;
    assert(names.take(0) =~= seq![]);
    while i < v.len()
        invariant
            i <= v@.len(),
            names == hint_names(v@),
            name_among(names.take(i as int), key@) is None,
        decreases v@.len() - i,
    {
        assert(names.take(i + 1).drop_last() =~= names.take(i as int));
        assert(names.take(i + 1).last() == v@[i as int].key@);
        if same_text(v[i].key.as_str(), key) {
            proof {
                lemma_found_early(names, key@, i + 1);
            }
            return Some(i);
        }
        i = i + 1;
    }
    assert(names.take(i as int) =~= names);
    None
}

/// Whether this is a shortcut with these words.
pub open spec fn is_hint(h: Hint, key: Seq<char>, keys: String, label: String, priority: i32) -> bool {
    h.key@ == key && h.keys == keys && h.label == label && h.priority == priority
}

/// Whether `is` is a row of shortcuts with a plugin's own on it: where one of that name stood, or else
/// at the end.
pub open spec fn is_hint_kept(
    was: Seq<Hint>,
    name: Seq<char>,
    keys: String,
    label: String,
    priority: i32,
    is: Seq<Hint>,
) -> bool {
    match name_among(hint_names(was), name) {
        Some(i) => {
            &&& is.len() == was.len()
            &&& is_hint(is[i], name, keys, label, priority)
            &&& forall|j: int| 0 <= j < is.len() && j != i ==> #[trigger] is[j] == was[j]
        },
        None => {
            &&& is.len() == was.len() + 1
            &&& is.drop_last() == was
            &&& is_hint(is.last(), name, keys, label, priority)
        },
    }
}

/// A row of shortcuts without the one of that name.
pub open spec fn hints_without(was: Seq<Hint>, name: Seq<char>) -> Seq<Hint> {
    match name_among(hint_names(was), name) {
        Some(i) => was.remove(i),
        None => was,
    }
}

/// Put a plugin's shortcut on the row, or another in its place.
pub fn keep_hint(
    v: &mut Vec<Hint>,
    plugin: &str,
    key: &str,
    keys: String,
    label: String,
    priority: i32,
)
    requires
        all_differ(hint_names(old(v)@)),
    ensures
        all_differ(hint_names(final(v)@)),
        is_hint_kept(old(v)@, kept_under(plugin@, key@), keys, label, priority, final(v)@),
{
    let name = namespaced(plugin, key);
    let ghost was = hint_names(v@);
    proof {
        lemma_name_among(was, name@);
    }
    match find_hint(v, name.as_str()) {
        Some(i) => {
            v[i] = Hint { key: name, keys, label, priority };
            assert(hint_names(v@) =~= was);
        },
        None => {
            let ghost all = v@;
            v.push(Hint { key: name, keys, label, priority });
            proof {
                assert(v@.drop_last() =~= all);
                assert(hint_names(v@) =~= was.push(name@));
                let now = hint_names(v@);
                assert forall|i: int, j: int| 0 <= i < j < now.len() implies #[trigger] now[i]
                    != #[trigger] now[j] by {
                    assert(now[i] == was[i]);
                    if j < was.len() {
                        assert(now[j] == was[j]);
                    } else {
                        assert(was.contains(was[i]));
                    }
                }
            }
        },
    }
}

/// Take a plugin's shortcut off the row. One that is not there is nothing.
pub fn drop_hint(v: &mut Vec<Hint>, plugin: &str, key: &str)
    requires
        all_differ(hint_names(old(v)@)),
    ensures
        all_differ(hint_names(final(v)@)),
        !hint_names(final(v)@).contains(kept_under(plugin@, key@)),
        final(v)@ == hints_without(old(v)@, kept_under(plugin@, key@)),
{
    let name = namespaced(plugin, key);
    let ghost was = hint_names(v@);
    proof {
        lemma_name_among(was, name@);
    }
    if let Some(i) = find_hint(v, name.as_str()) {
        v.remove(i);
        proof {
            assert(hint_names(v@) =~= was.remove(i as int));
            lemma_removed(was, i as int);
        }
    }
}

proof fn lemma_removed(names: Seq<Seq<char>>, i: int)
    requires
        all_differ(names),
        0 <= i < names.len(),
    ensures
        all_differ(names.remove(i)),
        !names.remove(i).contains(names[i]),
{
    let now = names.remove(i);
    assert forall|a: int, b: int| 0 <= a < b < now.len() implies #[trigger] now[a]
        != #[trigger] now[b] by {
        let x = if a < i {
            a
        } else {
            a + 1
        };
        let y = if b < i {
            b
        } else {
            b + 1
        };
        assert(now[a] == names[x] && now[b] == names[y]);
    }
    if now.contains(names[i]) {
        let a = choose|a: int| 0 <= a < now.len() && now[a] == names[i];
        let x = if a < i {
            a
        } else {
            a + 1
        };
        assert(now[a] == names[x]);
        if x < i {
            assert(names[x] != names[i]);
        } else {
            assert(names[i] != names[x]);
        }
    }
}

// ---- the strip --------------------------------------------------------------

/// The names some parts of the strip are kept under.
pub open spec fn segment_names(v: Seq<Segment>) -> Seq<Seq<char>> {
    v.map_values(|s: Segment| s.key@)
}

fn find_segment(v: &Vec<Segment>, key: &str) -> (r: Option<usize>)
    ensures
        match r {
            Some(i) => i < v@.len() && name_among(segment_names(v@), key@) == Some(i as int),
            None => name_among(segment_names(v@), key@) is None,
        },
{
    let ghost names = segment_names(v@);
    let mut i: usize = 0;
    assert(names.take(0) =~= seq![]);
    while i < v.len()
        invariant
            i <= v@.len(),
            names == segment_names(v@),
            name_among(names.take(i as int), key@) is None,
        decreases v@.len() - i,
    {
        assert(names.take(i + 1).drop_last() =~= names.take(i as int));
        assert(names.take(i + 1).last() == v@[i as int].key@);
        if same_text(v[i].key.as_str(), key) {
            proof {
                lemma_found_early(names, key@, i + 1);
            }
            return Some(i);
        }
        i = i + 1;
    }
    assert(names.take(i as int) =~= names);
    None
}

/// Whether `is` is a strip with a plugin's part on it: where one of that name stood, or else at the
/// end.
pub open spec fn is_segment_kept(
    was: Seq<Segment>,
    name: Seq<char>,
    segment: Segment,
    is: Seq<Segment>,
) -> bool {
    match name_among(segment_names(was), name) {
        Some(i) => {
            &&& is.len() == was.len()
            &&& is[i].key@ == name
            &&& is[i] == (Segment { key: is[i].key, ..segment })
            &&& forall|j: int| 0 <= j < is.len() && j != i ==> #[trigger] is[j] == was[j]
        },
        None => {
            &&& is.len() == was.len() + 1
            &&& is.drop_last() == was
            &&& is.last().key@ == name
            &&& is.last() == (Segment { key: is.last().key, ..segment })
        },
    }
}

/// A strip without the part of that name.
pub open spec fn segments_without(was: Seq<Segment>, name: Seq<char>) -> Seq<Segment> {
    match name_among(segment_names(was), name) {
        Some(i) => was.remove(i),
        None => was,
    }
}

/// Put a plugin's part on the strip, or another in its place. It is kept under the plugin's name and
/// the key, whatever name it came with.
pub fn keep_segment(v: &mut Vec<Segment>, plugin: &str, key: &str, segment: Segment)
    requires
        all_differ(segment_names(old(v)@)),
    ensures
        all_differ(segment_names(final(v)@)),
        is_segment_kept(old(v)@, kept_under(plugin@, key@), segment, final(v)@),
{
    let name = namespaced(plugin, key);
    let ghost was = segment_names(v@);
    let ghost called = name@;
    proof {
        lemma_name_among(was, name@);
    }
    let at = find_segment(v, name.as_str());
    let Segment { key: _, text, hl, keys, right, priority } = segment;
    let named = Segment { key: name, text, hl, keys, right, priority };
    match at {
        Some(i) => {
            v[i] = named;
            assert(segment_names(v@) =~= was);
        },
        None => {
            let ghost all = v@;
            v.push(named);
            proof {
                assert(v@.drop_last() =~= all);
                assert(segment_names(v@) =~= was.push(called));
                let now = segment_names(v@);
                assert forall|i: int, j: int| 0 <= i < j < now.len() implies #[trigger] now[i]
                    != #[trigger] now[j] by {
                    assert(now[i] == was[i]);
                    if j < was.len() {
                        assert(now[j] == was[j]);
                    } else {
                        assert(was.contains(was[i]));
                    }
                }
            }
        },
    }
}

/// Take a plugin's part off the strip. One that is not there is nothing.
pub fn drop_segment(v: &mut Vec<Segment>, plugin: &str, key: &str)
    requires
        all_differ(segment_names(old(v)@)),
    ensures
        all_differ(segment_names(final(v)@)),
        !segment_names(final(v)@).contains(kept_under(plugin@, key@)),
        final(v)@ == segments_without(old(v)@, kept_under(plugin@, key@)),
{
    let name = namespaced(plugin, key);
    let ghost was = segment_names(v@);
    proof {
        lemma_name_among(was, name@);
    }
    if let Some(i) = find_segment(v, name.as_str()) {
        v.remove(i);
        proof {
            assert(segment_names(v@) =~= was.remove(i as int));
            lemma_removed(was, i as int);
        }
    }
}

/// Whether a name is one that a plugin's things are kept under.
pub open spec fn is_of(name: Seq<char>, plugin: Seq<char>) -> bool {
    begins(name, plugin + ":"@)
}

/// The shortcuts that are not a plugin's.
pub open spec fn hints_left(v: Seq<Hint>, plugin: Seq<char>) -> Seq<Hint>
    decreases v.len(),
{
    if v.len() == 0 {
        seq![]
    } else if is_of(v.last().key@, plugin) {
        hints_left(v.drop_last(), plugin)
    } else {
        hints_left(v.drop_last(), plugin).push(v.last())
    }
}

/// The parts of the strip that are not a plugin's.
pub open spec fn segments_left(v: Seq<Segment>, plugin: Seq<char>) -> Seq<Segment>
    decreases v.len(),
{
    if v.len() == 0 {
        seq![]
    } else if is_of(v.last().key@, plugin) {
        segments_left(v.drop_last(), plugin)
    } else {
        segments_left(v.drop_last(), plugin).push(v.last())
    }
}

/// Take away what a plugin put on the rows, whether it is being reloaded or failed half way: a row
/// that advertises a key of a plugin that is gone is a key that does nothing.
pub fn tear_down_plugin(hints: &mut Vec<Hint>, segments: &mut Vec<Segment>, plugin: &str)
    ensures
        final(hints)@ == hints_left(old(hints)@, plugin@),
        final(segments)@ == segments_left(old(segments)@, plugin@),
{
    let prefix = concat(plugin, ":");
    let lead = chars_of(prefix.as_str());
    let ghost hs = hints@;
    let mut kept: Vec<Hint> = Vec::new();
    let mut left: Vec<Hint> = Vec::new();
    left.append(hints);
    assert(left@ =~= hs);
    let ghost mut n: int = 0;
    assert(kept@ =~= hints_left(hs.take(0), plugin@));
    assert(hs.skip(0) =~= hs);
    while left.len() > 0
        invariant
            lead@ == plugin@ + ":"@,
            0 <= n <= hs.len(),
            left@ == hs.skip(n),
            kept@ == hints_left(hs.take(n), plugin@),
        decreases left@.len(),
    {
        let h = left.remove(0);
        proof {
            assert(h == hs[n]);
            assert(left@ =~= hs.skip(n + 1));
            assert(hs.take(n + 1).drop_last() =~= hs.take(n));
            assert(hs.take(n + 1).last() == h);
            n = n + 1;
        }
        if !starts_with(chars_of(h.key.as_str()).as_slice(), lead.as_slice()) {
            kept.push(h);
        }
    }
    assert(hs.take(n) =~= hs);
    *hints = kept;
    let ghost ss = segments@;
    let mut kept: Vec<Segment> = Vec::new();
    let mut left: Vec<Segment> = Vec::new();
    left.append(segments);
    assert(left@ =~= ss);
    let ghost mut m: int = 0;
    assert(kept@ =~= segments_left(ss.take(0), plugin@));
    assert(ss.skip(0) =~= ss);
    while left.len() > 0
        invariant
            lead@ == plugin@ + ":"@,
            0 <= m <= ss.len(),
            left@ == ss.skip(m),
            kept@ == segments_left(ss.take(m), plugin@),
        decreases left@.len(),
    {
        let s = left.remove(0);
        proof {
            assert(s == ss[m]);
            assert(left@ =~= ss.skip(m + 1));
            assert(ss.take(m + 1).drop_last() =~= ss.take(m));
            assert(ss.take(m + 1).last() == s);
            m = m + 1;
        }
        if !starts_with(chars_of(s.key.as_str()).as_slice(), lead.as_slice()) {
            kept.push(s);
        }
    }
    assert(ss.take(m) =~= ss);
    *segments = kept;
}

/// Once a plugin has gone, none of its shortcuts is left, and every one that is was there before.
pub proof fn nothing_of_a_plugin_stays(v: Seq<Hint>, plugin: Seq<char>, i: int)
    requires
        0 <= i < hints_left(v, plugin).len(),
    ensures
        !is_of(hints_left(v, plugin)[i].key@, plugin),
        v.contains(hints_left(v, plugin)[i]),
    decreases v.len(),
{
    let less = v.drop_last();
    let left = hints_left(less, plugin);
    if is_of(v.last().key@, plugin) || i < left.len() {
        nothing_of_a_plugin_stays(less, plugin, i);
        let k = choose|k: int| 0 <= k < less.len() && less[k] == left[i];
        assert(v[k] == left[i]);
    } else {
        assert(v[v.len() - 1] == v.last());
    }
}

// ---- what is attached -------------------------------------------------------

/// What is attached in a conversation.
#[derive(Debug)]
pub struct Attached {
    pub session: SessionId,
    pub row: Vec<Attachment>,
}

/// Which of some rows is a conversation's.
pub open spec fn row_in(v: Seq<Attached>, session: Seq<char>) -> Option<int>
    decreases v.len(),
{
    if v.len() == 0 {
        None
    } else if v.last().session.0@ == session {
        Some(v.len() - 1)
    } else {
        row_in(v.drop_last(), session)
    }
}

/// What is attached in a conversation.
pub open spec fn row_at(v: Seq<Attached>, session: Seq<char>) -> Seq<Attachment> {
    match row_in(v, session) {
        Some(i) => v[i].row@,
        None => seq![],
    }
}

/// Whether there is one row for each conversation at most.
pub open spec fn one_row_each(v: Seq<Attached>) -> bool {
    forall|i: int, j: int|
        0 <= i < j < v.len() ==> (#[trigger] v[i]).session.0@ != (#[trigger] v[j]).session.0@
}

proof fn lemma_row_in(v: Seq<Attached>, session: Seq<char>)
    ensures
        match row_in(v, session) {
            Some(i) => 0 <= i < v.len() && v[i].session.0@ == session,
            None => forall|i: int| 0 <= i < v.len() ==> (#[trigger] v[i]).session.0@ != session,
        },
    decreases v.len(),
{
    if v.len() > 0 && v.last().session.0@ != session {
        let less = v.drop_last();
        lemma_row_in(less, session);
        if row_in(less, session) is None {
            assert forall|i: int| 0 <= i < v.len() implies (#[trigger] v[i]).session.0@
                != session by {
                if i < less.len() {
                    assert(less[i] == v[i]);
                }
            }
        }
    }
}

/// The row of a conversation is the one that goes by its name.
proof fn lemma_row_at(v: Seq<Attached>, session: Seq<char>, i: int)
    requires
        one_row_each(v),
        0 <= i < v.len(),
        v[i].session.0@ == session,
    ensures
        row_at(v, session) == v[i].row@,
{
    lemma_row_in(v, session);
    let k = row_in(v, session)->0;
    if k < i {
        assert(v[k].session.0@ != v[i].session.0@);
    } else if i < k {
        assert(v[i].session.0@ != v[k].session.0@);
    }
}

/// Taking a conversation's row leaves nothing there, and every other row as it was.
pub proof fn lemma_row_taken(v: Seq<Attached>, here: Seq<char>, left: Seq<Attached>, other: Seq<char>)
    requires
        one_row_each(v),
        left == (match row_in(v, here) {
            Some(i) => v.remove(i),
            None => v,
        }),
    ensures
        one_row_each(left),
        row_in(left, here) is None,
        other != here ==> row_at(left, other) == row_at(v, other),
{
    lemma_row_in(v, here);
    lemma_row_in(left, here);
    lemma_row_in(left, other);
    lemma_row_in(v, other);
    if let Some(i) = row_in(v, here) {
        assert forall|a: int, b: int| 0 <= a < b < left.len() implies (
        #[trigger] left[a]).session.0@ != (#[trigger] left[b]).session.0@ by {
            let x = if a < i {
                a
            } else {
                a + 1
            };
            let y = if b < i {
                b
            } else {
                b + 1
            };
            assert(left[a] == v[x] && left[b] == v[y]);
        }
        if let Some(a) = row_in(left, here) {
            let x = if a < i {
                a
            } else {
                a + 1
            };
            assert(left[a] == v[x]);
            assert(v[x].session.0@ == v[i].session.0@);
            if x < i {
                assert(v[x].session.0@ != v[i].session.0@);
            } else {
                assert(v[i].session.0@ != v[x].session.0@);
            }
        }
        if other != here {
            match row_in(v, other) {
                Some(k) => {
                    let a = if k < i {
                        k
                    } else {
                        k - 1
                    };
                    assert(left[a] == v[k]);
                    lemma_row_at(left, other, a);
                },
                None => {
                    if let Some(a) = row_in(left, other) {
                        let x = if a < i {
                            a
                        } else {
                            a + 1
                        };
                        assert(left[a] == v[x]);
                        assert(v[x].session.0@ != other);
                    }
                },
            }
        }
    }
}

/// Put back what is attached in a conversation that has no row.
pub fn put_row(v: &mut Vec<Attached>, session: &SessionId, row: Vec<Attachment>)
    requires
        one_row_each(old(v)@),
        row_in(old(v)@, session.0@) is None,
    ensures
        one_row_each(final(v)@),
        row_at(final(v)@, session.0@) == row@,
        forall|s: Seq<char>|
            s != session.0@ ==> #[trigger] row_at(final(v)@, s) == row_at(old(v)@, s),
{
    proof {
        lemma_row_in(v@, session.0@);
    }
    if row.len() > 0 {
        let ghost was = v@;
        v.push(Attached { session: SessionId(session.0.clone()), row });
        proof {
            let now = v@;
            assert(now.drop_last() =~= was);
            assert forall|i: int, j: int| 0 <= i < j < now.len() implies (
            #[trigger] now[i]).session.0@ != (#[trigger] now[j]).session.0@ by {
                assert(now[i] == was[i]);
                if j < was.len() {
                    assert(now[j] == was[j]);
                }
            }
            assert forall|s: Seq<char>| s != session.0@ implies #[trigger] row_at(now, s) == row_at(
                was,
                s,
            ) by {
                lemma_row_in(was, s);
                assert(row_in(now, s) == row_in(was, s));
                if let Some(i) = row_in(was, s) {
                    assert(now[i] == was[i]);
                }
            }
        }
    } else {
        assert(row@ =~= seq![]);
    }
}

/// Take what is attached in a conversation, and leave nothing there: this is the moment it stops
/// being a draft.
pub fn take_attachments(v: &mut Vec<Attached>, session: &SessionId) -> (r: Vec<Attachment>)
    ensures
        match row_in(old(v)@, session.0@) {
            Some(i) => r == old(v)@[i].row && final(v)@ == old(v)@.remove(i),
            None => r@.len() == 0 && final(v)@ == old(v)@,
        },
{
    let mut i: usize = v.len();
    let ghost given = v@;
    assert(given.take(i as int) =~= given);
    while i > 0
        invariant
            i <= v@.len(),
            v@ == given,
            given == old(v)@,
            row_in(given, session.0@) == row_in(given.take(i as int), session.0@),
        decreases i,
    {
        assert(given.take(i as int).drop_last() =~= given.take(i - 1));
        if same_text(v[i - 1].session.0.as_str(), session.0.as_str()) {
            let a = v.remove(i - 1);
            return a.row;
        }
        i = i - 1;
    }
    Vec::new()
}

/// Put a picture on a conversation's row.
pub fn attach(v: &mut Vec<Attached>, session: &SessionId, picture: Attachment)
    ensures
        match row_in(old(v)@, session.0@) {
            Some(i) => {
                &&& final(v)@.len() == old(v)@.len()
                &&& final(v)@[i].session == old(v)@[i].session
                &&& final(v)@[i].row@ == old(v)@[i].row@.push(picture)
                &&& forall|j: int|
                    0 <= j < final(v)@.len() && j != i ==> #[trigger] final(v)@[j] == old(v)@[j]
            },
            None => {
                &&& final(v)@.len() == old(v)@.len() + 1
                &&& final(v)@.drop_last() == old(v)@
                &&& final(v)@.last().session.0@ == session.0@
                &&& final(v)@.last().row@ == seq![picture]
            },
        },
{
    let mut i: usize = v.len();
    let ghost given = v@;
    assert(given.take(i as int) =~= given);
    while i > 0
        invariant
            i <= v@.len(),
            v@ == given,
            given == old(v)@,
            row_in(given, session.0@) == row_in(given.take(i as int), session.0@),
        decreases i,
    {
        assert(given.take(i as int).drop_last() =~= given.take(i - 1));
        if same_text(v[i - 1].session.0.as_str(), session.0.as_str()) {
            v[i - 1].row.push(picture);
            return;
        }
        i = i - 1;
    }
    let row = vec![picture];
    assert(row@ =~= seq![picture]);
    v.push(Attached { session: SessionId(session.0.clone()), row });
    assert(v@.drop_last() =~= given);
}

} // verus!
