//! What has been said, to whom and when.

use crate::notify::{is_fresh, AlertReason, Topic};
use crate::text::same_text;
use vstd::prelude::*;

verus! {

/// One conversation, what it was alerted for, and when.
#[derive(Debug)]
pub struct Entry {
    pub session: String,
    pub reason: AlertReason,
    pub at: u64,
}

/// What an entry is about.
pub open spec fn topic(e: Entry) -> Topic {
    (e.session@, e.reason)
}

/// Some entries as a map from topics to times.
pub open spec fn memory(v: Seq<Entry>) -> Map<Topic, u64>
    decreases v.len(),
{
    if v.len() == 0 {
        Map::empty()
    } else {
        memory(v.drop_last()).insert(topic(v.last()), v.last().at)
    }
}

/// No two entries are about the same thing.
pub open spec fn unique(v: Seq<Entry>) -> bool {
    forall|i: int, j: int|
        0 <= i < j < v.len() ==> topic(#[trigger] v[i]) != topic(#[trigger] v[j])
}

proof fn lemma_unique_less(v: Seq<Entry>)
    requires
        unique(v),
        v.len() > 0,
    ensures
        unique(v.drop_last()),
{
    let w = v.drop_last();
    assert forall|i: int, j: int| 0 <= i < j < w.len() implies topic(#[trigger] w[i]) != topic(
        #[trigger] w[j],
    ) by {
        assert(w[i] == v[i] && w[j] == v[j]);
    }
}

/// What the map knows is what some entry says.
pub proof fn lemma_known(v: Seq<Entry>, t: Topic)
    requires
        unique(v),
    ensures
        memory(v).contains_key(t) == (exists|i: int|
            0 <= i < v.len() && topic(#[trigger] v[i]) == t),
        forall|i: int|
            0 <= i < v.len() && topic(#[trigger] v[i]) == t ==> memory(v)[t] == v[i].at,
        memory(v).dom().finite(),
    decreases v.len(),
{
    if v.len() > 0 {
        let w = v.drop_last();
        lemma_unique_less(v);
        lemma_known(w, t);
        let n = v.len() - 1;
        assert(v[n] == v.last());
        assert forall|i: int| 0 <= i < v.len() && topic(#[trigger] v[i]) == t implies memory(v)[t]
            == v[i].at by {
            if i < n {
                assert(w[i] == v[i]);
                assert(topic(v[i]) != topic(v[n]));
            }
        }
        if memory(v).contains_key(t) {
            if t == topic(v.last()) {
                assert(topic(v[n]) == t);
            } else {
                let i = choose|i: int| 0 <= i < w.len() && topic(#[trigger] w[i]) == t;
                assert(v[i] == w[i]);
            }
        }
        if exists|i: int| 0 <= i < v.len() && topic(#[trigger] v[i]) == t {
            let i = choose|i: int| 0 <= i < v.len() && topic(#[trigger] v[i]) == t;
            if i < n {
                assert(w[i] == v[i]);
            }
        }
    }
}

/// The map has as many topics as there are entries.
pub proof fn lemma_memory_size(v: Seq<Entry>)
    requires
        unique(v),
    ensures
        memory(v).dom().len() == v.len(),
        memory(v).dom().finite(),
    decreases v.len(),
{
    if v.len() > 0 {
        let w = v.drop_last();
        lemma_unique_less(v);
        lemma_memory_size(w);
        lemma_known(w, topic(v.last()));
        let n = v.len() - 1;
        if memory(w).contains_key(topic(v.last())) {
            let i = choose|i: int| 0 <= i < w.len() && topic(#[trigger] w[i]) == topic(v.last());
            assert(w[i] == v[i]);
            assert(topic(v[i]) != topic(v[n]));
        }
        assert(memory(v).dom() =~= memory(w).dom().insert(topic(v.last())));
    }
}

/// One more entry, about something new.
pub proof fn lemma_memory_push(v: Seq<Entry>, e: Entry)
    requires
        unique(v),
        !memory(v).contains_key(topic(e)),
    ensures
        unique(v.push(e)),
        memory(v.push(e)) == memory(v).insert(topic(e), e.at),
{
    let w = v.push(e);
    assert(w.drop_last() =~= v);
    lemma_known(v, topic(e));
    assert forall|i: int, j: int| 0 <= i < j < w.len() implies topic(#[trigger] w[i]) != topic(
        #[trigger] w[j],
    ) by {
        assert(w[i] == v[i]);
        if j < v.len() {
            assert(w[j] == v[j]);
        }
    }
}

/// A newer time for something that is already there.
pub proof fn lemma_memory_update(v: Seq<Entry>, k: int, e: Entry)
    requires
        unique(v),
        0 <= k < v.len(),
        topic(e) == topic(v[k]),
    ensures
        unique(v.update(k, e)),
        memory(v.update(k, e)) == memory(v).insert(topic(e), e.at),
{
    let w = v.update(k, e);
    assert forall|i: int, j: int| 0 <= i < j < w.len() implies topic(#[trigger] w[i]) != topic(
        #[trigger] w[j],
    ) by {
        assert(topic(v[i]) != topic(v[j]));
    }
    let a = memory(w);
    let b = memory(v).insert(topic(e), e.at);
    assert forall|t: Topic| a.contains_key(t) == b.contains_key(t) by {
        lemma_known(v, t);
        lemma_known(w, t);
        if a.contains_key(t) {
            let i = choose|i: int| 0 <= i < w.len() && topic(#[trigger] w[i]) == t;
            assert(topic(v[i]) == t);
        }
        if b.contains_key(t) && t != topic(e) {
            let i = choose|i: int| 0 <= i < v.len() && topic(#[trigger] v[i]) == t;
            assert(topic(w[i]) == t);
        }
        if t == topic(e) {
            assert(topic(w[k]) == t);
        }
    }
    assert forall|t: Topic| a.contains_key(t) implies #[trigger] a[t] == b[t] by {
        lemma_known(v, t);
        lemma_known(w, t);
        let i = choose|i: int| 0 <= i < w.len() && topic(#[trigger] w[i]) == t;
        assert(topic(v[i]) == t);
        if i != k {
            assert(w[i] == v[i]);
            assert(topic(w[i]) != topic(w[k])) by {
                if i < k {
                } else {
                    assert(topic(w[k]) != topic(w[i]));
                }
            }
        } else {
            assert(w[i] == e);
        }
    }
    assert(a =~= b);
}

/// Where something is remembered.
pub fn entry_at(v: &Vec<Entry>, session: &str, reason: AlertReason) -> (r: Option<usize>)
    requires
        unique(v@),
    ensures
        match r {
            Some(i) => i < v@.len() && topic(v@[i as int]) == (session@, reason) && memory(
                v@,
            ).contains_key((session@, reason)) && memory(v@)[(session@, reason)] == v@[i as int].at,
            None => !memory(v@).contains_key((session@, reason)),
        },
{
    let ghost t: Topic = (session@, reason);
    proof {
        lemma_known(v@, t);
    }
    let mut i: usize = 0;
    while i < v.len()
        invariant
            i <= v@.len(),
            unique(v@),
            t == (session@, reason),
            forall|j: int| 0 <= j < i ==> topic(#[trigger] v@[j]) != t,
        decreases v@.len() - i,
    {
        if v[i].reason == reason && same_text(v[i].session.as_str(), session) {
            assert(topic(v@[i as int]) == t);
            proof {
                lemma_known(v@, t);
            }
            return Some(i);
        }
        i = i + 1;
    }
    None
}

/// Let go of everything that is no longer fresh.
pub fn sweep(v: &mut Vec<Entry>, now: u64)
    requires
        unique(old(v)@),
    ensures
        unique(final(v)@),
        memory(final(v)@) == memory(old(v)@).restrict(
            memory(old(v)@).dom().filter(|t: Topic| is_fresh(memory(old(v)@)[t], now)),
        ),
{
    let ghost given = v@;
    let mut kept: Vec<Entry> = Vec::new();
    let mut i: usize = 0;
    let ghost mut from: Seq<int> = seq![];
    while i < v.len()
        invariant
            i <= v@.len(),
            v@ == given,
            unique(given),
            from.len() == kept@.len(),
            forall|k: int| 0 <= k < from.len() ==> 0 <= #[trigger] from[k] < i,
            forall|k: int, l: int| 0 <= k < l < from.len() ==> from[k] < from[l],
            forall|k: int|
                0 <= k < kept@.len() ==> topic(#[trigger] kept@[k]) == topic(given[from[k]])
                    && kept@[k].at == given[from[k]].at && is_fresh(kept@[k].at, now),
            forall|j: int|
                0 <= j < i && is_fresh((#[trigger] given[j]).at, now) ==> exists|k: int|
                    0 <= k < from.len() && #[trigger] from[k] == j,
        decreases v@.len() - i,
    {
        let at = v[i].at;
        if now <= at || now - at < crate::notify::REPEAT_AFTER {
            let ghost before = from;
            kept.push(Entry { session: v[i].session.clone(), reason: v[i].reason, at });
            proof {
                from = from.push(i as int);
                assert(from[before.len() as int] == i);
                assert forall|j: int|
                    0 <= j < i + 1 && is_fresh((#[trigger] given[j]).at, now) implies exists|k: int|
                    0 <= k < from.len() && #[trigger] from[k] == j by {
                    if j < i {
                        let k = choose|k: int| 0 <= k < before.len() && #[trigger] before[k] == j;
                        assert(from[k] == j);
                    }
                }
            }
        }
        i = i + 1;
    }
    proof {
        let w = kept@;
        assert forall|a: int, b: int| 0 <= a < b < w.len() implies topic(#[trigger] w[a]) != topic(
            #[trigger] w[b],
        ) by {
            assert(from[a] < from[b]);
            assert(topic(given[from[a]]) != topic(given[from[b]]));
        }
        let m = memory(given);
        let want = m.restrict(m.dom().filter(|t: Topic| is_fresh(m[t], now)));
        let got = memory(w);
        assert forall|t: Topic| got.contains_key(t) == want.contains_key(t) by {
            lemma_known(given, t);
            lemma_known(w, t);
            if got.contains_key(t) {
                let k = choose|k: int| 0 <= k < w.len() && topic(#[trigger] w[k]) == t;
                assert(topic(given[from[k]]) == t);
            }
            if want.contains_key(t) {
                let j = choose|j: int| 0 <= j < given.len() && topic(#[trigger] given[j]) == t;
                assert(is_fresh(given[j].at, now));
                let k = choose|k: int| 0 <= k < from.len() && #[trigger] from[k] == j;
                assert(topic(w[k]) == t);
            }
        }
        assert forall|t: Topic| got.contains_key(t) implies #[trigger] got[t] == want[t] by {
            lemma_known(given, t);
            lemma_known(w, t);
            let k = choose|k: int| 0 <= k < w.len() && topic(#[trigger] w[k]) == t;
            assert(topic(given[from[k]]) == t);
        }
        assert(got =~= want);
    }
    *v = kept;
}

} // verus!
