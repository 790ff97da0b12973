//! What the other machines of a swarm, and the scripts and plugins of this one, can count on.

use crate::host::calls::{Fault, Given, Refusal};
use crate::host::peers::{
    deed_of, firsts, pending_after, placed_before, refusal_of, swarm_follows, watched_after,
    AgentCommand, Deed, Did, Peer, Placed, SwarmEvent,
};
use crate::host::places::{
    checkout_named, file_name_of, first_open, first_part, last_real, leaf_name, stamp, stem_of,
    Saved,
};
use crate::host::rounds::Turn;
use crate::host::startup::{
    bundled_loaded, described, each_once, entry_url, settled, wished, Bundled, Resolved, Step, Wish,
};
use crate::host::swarm::{
    dials_remembered, is_node, keyless, let_in, probe_answer, refusal_said, reply_of, sent_as,
    stranger_among, wire_name, Around, ConfigPeer, Dial, Node, Probed, RememberedPeer, Sent,
    Stranger, Swarm, SwarmConfig,
};
use crate::host::calls::ApiError;
use crate::letters::the_last_place_is_the_last;
use crate::notify::MessageLevel;
use crate::paths::spelling::{is_among, lemma_split_concat};
use crate::text::{decimal, lemma_position, split_on, texts};
use crate::words::{holds, last_position_of};
use vstd::prelude::*;

verus! {

// ---- starting up ------------------------------------------------------------

/// Once everything has loaded, the model is settled first, then what nobody declared is told, then
/// what came too early is run; that the workspace is up is said before a reload that came too early.
pub proof fn what_waited_is_run_in_order()
    ensures
        settled().len() == 5,
        settled()[0] == Step::RetryModel,
        settled()[1] == Step::ReportUnknown,
        settled()[2] == Step::RunHeld,
        settled()[3] == Step::AnnounceReady,
        settled()[4] == Step::RunPendingReload,
{
}

/// A script is loaded under its own name the first time, and under one with the number of the reading
/// after it from then on.
pub proof fn a_script_is_loaded_under_its_own_name(url: Seq<char>, generation: nat)
    ensures
        url.is_prefix_of(entry_url(url, generation)),
        entry_url(url, 0) == url,
        holds(url, "?v="@) ==> entry_url(url, generation) == url,
        generation > 0 && !holds(url, "?v="@) ==> entry_url(url, generation) == url + "?v="@
            + decimal(generation),
{
    let e = entry_url(url, generation);
    assert(e.subrange(0, url.len() as int) =~= url);
}

/// Every setting of a configuration is wished for: its model and its prompt where it has them, and
/// then each of its options in order.
pub proof fn every_setting_is_wished_for(c: Resolved, v: Seq<Wish>)
    requires
        wished(c, v),
    ensures
        c.model is Some ==> v.len() > 0 && v[0].name@ == "agent.model"@,
        c.system_prompt is Some ==> exists|i: int|
            0 <= i < 2 && i < v.len() && (#[trigger] v[i]).name@ == "agent.system_prompt"@,
        forall|i: int|
            0 <= i < c.options@.len() ==> v.contains(#[trigger] c.options@[i]),
        c.model is None && c.system_prompt is None ==> v == c.options@,
{
    let m: int = if c.model is Some {
        1
    } else {
        0
    };
    let p: int = if c.system_prompt is Some {
        1
    } else {
        0
    };
    if p == 1 {
        assert(v[m].name@ == "agent.system_prompt"@);
    }
    assert forall|i: int| 0 <= i < c.options@.len() implies v.contains(#[trigger] c.options@[i]) by {
        assert(v.skip(m + p)[i] == c.options@[i]);
        assert(v[m + p + i] == c.options@[i]);
    }
    if m + p == 0 {
        assert(v.skip(0) =~= v);
    }
}

/// The folder named first is looked in first.
pub proof fn the_first_folder_stays_first(v: Seq<Seq<char>>)
    requires
        v.len() > 0,
    ensures
        each_once(v).len() > 0,
        each_once(v)[0] == v[0],
    decreases v.len(),
{
    if v.len() > 1 {
        the_first_folder_stays_first(v.drop_last());
    } else {
        let none = v.drop_last();
        assert(none.len() == 0);
        assert(!is_among(none, v.last()));
        assert(each_once(none).len() == 0);
        assert(each_once(v) == each_once(none).push(v.last()));
    }
}

/// A plugin that comes with the program is loaded where what it says of itself can be read and nobody
/// switched it off, and none of them where all were; they are loaded in the order they come in.
pub proof fn every_bundled_plugin_is_loaded_unless_switched_off(
    all: Seq<Bundled>,
    none: bool,
    disabled: Seq<Seq<char>>,
)
    ensures
        forall|i: int| #[trigger]
            bundled_loaded(all, none, disabled).contains(i) == (!none && 0 <= i < all.len()
                && all[i].readable && !disabled.contains(all[i].name@)),
        forall|i: int, j: int|
            0 <= i < j < bundled_loaded(all, none, disabled).len() ==> #[trigger] bundled_loaded(
                all,
                none,
                disabled,
            )[i] < #[trigger] bundled_loaded(all, none, disabled)[j],
    decreases all.len(),
{
    let r = bundled_loaded(all, none, disabled);
    if all.len() > 0 && !none {
        let front = all.drop_last();
        let n = all.len() - 1;
        let rest = bundled_loaded(front, none, disabled);
        every_bundled_plugin_is_loaded_unless_switched_off(front, none, disabled);
        let takes = all.last().readable && !disabled.contains(all.last().name@);
        assert forall|i: int| #[trigger]
            r.contains(i) == (!none && 0 <= i < all.len() && all[i].readable && !disabled.contains(
                all[i].name@,
            )) by {
            if r.contains(i) {
                let k = choose|k: int| 0 <= k < r.len() && r[k] == i;
                if k < rest.len() {
                    assert(rest[k] == i);
                    assert(rest.contains(i));
                    assert(front[i] == all[i]);
                }
            }
            if 0 <= i < n && all[i].readable && !disabled.contains(all[i].name@) {
                assert(front[i] == all[i]);
                assert(rest.contains(i));
                let k = choose|k: int| 0 <= k < rest.len() && rest[k] == i;
                assert(r[k] == i);
            }
            if i == n && takes {
                assert(r[rest.len() as int] == n);
            }
        }
        assert forall|i: int, j: int| 0 <= i < j < r.len() implies #[trigger] r[i]
            < #[trigger] r[j] by {
            assert(rest.contains(rest[i]));
        }
    }
}

/// What is wrong with a setting names it, unless what is said does already.
pub proof fn what_is_wrong_with_a_setting_is_said(name: Seq<char>, e: ApiError)
    ensures
        e is NotFound ==> described(name, e) == e->NotFound_0@,
        e is InvalidArgument ==> described(name, e) == e->InvalidArgument_0@,
        !(e is NotFound) && !(e is InvalidArgument) ==> ("option "@ + name).is_prefix_of(
            described(name, e),
        ),
{
    let lead = "option "@ + name;
    if !(e is NotFound) && !(e is InvalidArgument) {
        assert(described(name, e).subrange(0, lead.len() as int) =~= lead);
    }
}

// ---- names ------------------------------------------------------------------

proof fn lemma_last_real(v: Seq<Seq<char>>, n: Seq<char>)
    requires
        n.len() > 0,
        n != "."@,
    ensures
        last_real(v.push(n)) == Some(n),
        last_real(v.push(n).push(Seq::<char>::empty())) == Some(n),
{
    let w = v.push(n);
    assert(w.last() == n);
    assert(w.push(Seq::<char>::empty()).drop_last() =~= w);
    assert(w.push(Seq::<char>::empty()).last() =~= Seq::<char>::empty());
}

/// The last name of a path is what stands behind its last slash, whether or not the path ends in one.
pub proof fn the_last_name_is_the_name(dir: Seq<char>, name: Seq<char>)
    requires
        name.len() > 0,
        name != "."@,
        name != ".."@,
        forall|i: int| 0 <= i < name.len() ==> #[trigger] name[i] != '/',
    ensures
        file_name_of(dir + seq!['/'] + name) == Some(name),
        file_name_of(name) == Some(name),
        file_name_of(dir + seq!['/'] + name + seq!['/']) == Some(name),
        leaf_name(dir + seq!['/'] + name) == name,
{
    lemma_position(name, '/', name.len() as int);
    assert(split_on(name, '/') =~= seq![name]);
    lemma_split_concat(dir, name, '/');
    let d = split_on(dir, '/');
    let path = dir + seq!['/'] + name;
    assert(split_on(path, '/') =~= d.push(name));
    lemma_last_real(d, name);
    let none = Seq::<Seq<char>>::empty();
    assert(seq![name] =~= none.push(name));
    lemma_last_real(none, name);
    let empty = Seq::<char>::empty();
    lemma_split_concat(path, empty, '/');
    assert(path + seq!['/'] =~= path + seq!['/'] + empty);
    lemma_position(empty, '/', 0);
    assert(split_on(empty, '/') =~= seq![empty]);
    assert(split_on(path + seq!['/'], '/') =~= d.push(name).push(empty));
}

/// A name without its extension is what stands before its last dot; one that begins with its only dot
/// has none.
pub proof fn a_stem_is_what_stands_before_the_last_dot(name: Seq<char>, ext: Seq<char>)
    requires
        forall|i: int| 0 <= i < ext.len() ==> #[trigger] ext[i] != '.',
    ensures
        name.len() > 0 ==> stem_of(name + seq!['.'] + ext) == name,
        stem_of(seq!['.'] + ext) == seq!['.'] + ext,
        stem_of(ext) == ext,
{
    let s = name + seq!['.'] + ext;
    the_last_place_is_the_last(s, '.');
    let k = last_position_of(s, '.');
    assert(s[name.len() as int] == '.');
    if k > name.len() {
        assert(s[k] == ext[k - name.len() - 1]);
    }
    assert(s.take(k) =~= name);
    let h = seq!['.'] + ext;
    the_last_place_is_the_last(h, '.');
    let j = last_position_of(h, '.');
    if j > 0 {
        assert(h[j] == ext[j - 1]);
    }
    the_last_place_is_the_last(ext, '.');
}

/// A machine is called by the first part of its name.
pub proof fn a_machine_is_called_by_the_first_part_of_its_name(a: Seq<char>, b: Seq<char>)
    requires
        forall|i: int| 0 <= i < a.len() ==> #[trigger] a[i] != '.',
    ensures
        first_part(a + seq!['.'] + b) == a,
        first_part(a) == a,
{
    let s = a + seq!['.'] + b;
    assert forall|j: int| 0 <= j < a.len() implies #[trigger] s[j] != '.' by {
        assert(s[j] == a[j]);
    }
    lemma_position(s, '.', a.len() as int);
    assert(s.take(a.len() as int) =~= a);
    lemma_position(a, '.', a.len() as int);
    assert(a.take(a.len() as int) =~= a);
}

/// A checkout is called by its repository, and by its branch too where it is not the repository's
/// own.
pub proof fn a_checkout_is_called_by_its_repository(
    dir: Seq<char>,
    branch: Seq<char>,
    main: Seq<char>,
)
    ensures
        checkout_named(dir, Some(branch), None, true) == leaf_name(dir),
        checkout_named(dir, None, None, false) == leaf_name(dir),
        checkout_named(dir, Some(branch), Some(main), true) == leaf_name(main),
        checkout_named(dir, Some(branch), Some(main), false) == leaf_name(main) + " \u{b7} "@
            + branch,
        checkout_named(dir, None, Some(main), false) == leaf_name(main) + " \u{b7} "@ + leaf_name(
            dir,
        ),
{
}

/// The conversation that is opened is the first that has not been put away, and there is none only
/// where all have.
pub proof fn the_first_open_conversation_is_opened(v: Seq<Saved>)
    ensures
        match first_open(v) {
            Some(i) => {
                &&& 0 <= i < v.len()
                &&& !v[i].archived
                &&& forall|j: int| 0 <= j < i ==> (#[trigger] v[j]).archived
            },
            None => forall|j: int| 0 <= j < v.len() ==> (#[trigger] v[j]).archived,
        },
    decreases v.len(),
{
    if v.len() > 0 && v[0].archived {
        let rest = v.skip(1);
        the_first_open_conversation_is_opened(rest);
        match first_open(rest) {
            Some(i) => {
                assert forall|j: int| 0 <= j < i + 1 implies (#[trigger] v[j]).archived by {
                    if j > 0 {
                        assert(rest[j - 1].archived);
                    }
                }
            },
            None => {
                assert forall|j: int| 0 <= j < v.len() implies (#[trigger] v[j]).archived by {
                    if j > 0 {
                        assert(rest[j - 1].archived);
                    }
                }
            },
        }
    }
}

/// A moment is stamped as itself, and none as nought.
pub proof fn a_moment_is_stamped_as_itself(s: u64)
    requires
        s <= i64::MAX,
    ensures
        stamp(Some(s)) == s,
        stamp(None) == 0,
{
}

// ---- a node -----------------------------------------------------------------

/// Every machine that is remembered with an address is dialled at it, and expected to be itself.
pub proof fn every_machine_with_an_address_is_dialled(v: Seq<RememberedPeer>, d: Dial)
    ensures
        dials_remembered(v).contains(d) == (exists|i: int|
            0 <= i < v.len() && (#[trigger] v[i]).addr is Some && d == (
                v[i].addr->0@,
                Some(v[i].id@),
            )),
    decreases v.len(),
{
    if v.len() > 0 {
        let front = v.drop_last();
        let n = v.len() - 1;
        let rest = dials_remembered(front);
        let all = dials_remembered(v);
        every_machine_with_an_address_is_dialled(front, d);
        if rest.contains(d) {
            let k = choose|k: int| 0 <= k < rest.len() && rest[k] == d;
            assert(all[k] == d);
            let i = choose|i: int|
                0 <= i < front.len() && (#[trigger] front[i]).addr is Some && d == (
                    front[i].addr->0@,
                    Some(front[i].id@),
                );
            assert(v[i] == front[i]);
        }
        if all.contains(d) && !rest.contains(d) {
            let k = choose|k: int| 0 <= k < all.len() && all[k] == d;
            if k < rest.len() {
                assert(rest[k] == d);
            }
            assert(v[n].addr is Some);
        }
        if exists|i: int|
            0 <= i < v.len() && (#[trigger] v[i]).addr is Some && d == (
                v[i].addr->0@,
                Some(v[i].id@),
            ) {
            let i = choose|i: int|
                0 <= i < v.len() && (#[trigger] v[i]).addr is Some && d == (
                    v[i].addr->0@,
                    Some(v[i].id@),
                );
            if i < n {
                assert(front[i] == v[i]);
                assert(rest.contains(d));
            } else {
                assert(all[rest.len() as int] == d);
            }
        }
    }
}

/// Whoever the configuration names with a key is let in, under the name it is given there or else its
/// address; whoever it names without one is told of, and not let in.
pub proof fn whoever_has_a_key_is_let_in(v: Seq<ConfigPeer>)
    ensures
        forall|i: int|
            0 <= i < v.len() && (#[trigger] v[i]).id is Some ==> let_in(v).contains(
                (
                    v[i].id->0@,
                    match v[i].name {
                        Some(n) => n@,
                        None => v[i].addr@,
                    },
                    v[i].addr@,
                ),
            ),
        forall|i: int|
            0 <= i < v.len() && (#[trigger] v[i]).id is None ==> keyless(v).contains(
                (
                    MessageLevel::Info,
                    "swarm peer "@ + v[i].addr@ + " has no id yet \u{2014} ^J to pair with it"@,
                ),
            ),
        let_in(v).len() + keyless(v).len() == v.len(),
    decreases v.len(),
{
    if v.len() > 0 {
        let front = v.drop_last();
        whoever_has_a_key_is_let_in(front);
        let a = let_in(front);
        let b = keyless(front);
        assert forall|i: int| 0 <= i < v.len() && (#[trigger] v[i]).id is Some implies let_in(
            v,
        ).contains(
            (
                v[i].id->0@,
                match v[i].name {
                    Some(n) => n@,
                    None => v[i].addr@,
                },
                v[i].addr@,
            ),
        ) by {
            let x = (
                v[i].id->0@,
                match v[i].name {
                    Some(n) => n@,
                    None => v[i].addr@,
                },
                v[i].addr@,
            );
            if i < front.len() {
                assert(front[i] == v[i]);
                assert(a.contains(x));
                let k = choose|k: int| 0 <= k < a.len() && a[k] == x;
                assert(let_in(v)[k] == x);
            } else {
                assert(let_in(v)[a.len() as int] == x);
            }
        }
        assert forall|i: int| 0 <= i < v.len() && (#[trigger] v[i]).id is None implies keyless(
            v,
        ).contains(
            (
                MessageLevel::Info,
                "swarm peer "@ + v[i].addr@ + " has no id yet \u{2014} ^J to pair with it"@,
            ),
        ) by {
            let x = (
                MessageLevel::Info,
                "swarm peer "@ + v[i].addr@ + " has no id yet \u{2014} ^J to pair with it"@,
            );
            if i < front.len() {
                assert(front[i] == v[i]);
                assert(b.contains(x));
                let k = choose|k: int| 0 <= k < b.len() && b[k] == x;
                assert(keyless(v)[k] == x);
            } else {
                assert(keyless(v)[b.len() as int] == x);
            }
        }
    }
}

/// A node listens only where it was asked to and can, takes commands and approvals only where it was
/// told it may, is called what it was called, and is heard from at least every second it could be.
pub proof fn a_node_is_what_was_asked_for(
    n: Node,
    cfg: SwarmConfig,
    around: Around,
    remembered: Seq<RememberedPeer>,
)
    requires
        is_node(n, cfg, around, remembered),
    ensures
        n.listen == (cfg.listens && around.listen is None),
        n.accepts_commands == cfg.accepts_commands,
        n.accepts_approvals == cfg.accepts_approvals,
        cfg.name is Some ==> n.name@ == cfg.name->0@,
        cfg.name is None ==> n.name@ == around.name@,
        n.heartbeat_secs >= 1,
        cfg.heartbeat_secs > 0 ==> n.heartbeat_secs == cfg.heartbeat_secs,
        n.allow@.len() <= cfg.peers@.len(),
        n.dial@.len() >= cfg.peers@.len(),
{
    whoever_has_a_key_is_let_in(cfg.peers@);
    assert(n.allow@.len() == let_in(cfg.peers@).len());
    assert(n.dial@.len() == (dials_remembered(remembered) + crate::host::swarm::dials_named(
        cfg.peers@,
    )).len());
}

/// An answer goes to the command that was sent under its name, and to none where none was.
pub proof fn an_answer_finds_its_command(v: Seq<Sent>, id: Seq<char>)
    ensures
        match sent_as(v, id) {
            Some(i) => 0 <= i < v.len() && wire_name(v[i].number as nat) == id,
            None => forall|i: int|
                0 <= i < v.len() ==> wire_name((#[trigger] v[i]).number as nat) != id,
        },
    decreases v.len(),
{
    if v.len() > 0 && wire_name(v.last().number as nat) != id {
        let front = v.drop_last();
        an_answer_finds_its_command(front, id);
        if sent_as(front, id) is None {
            assert forall|i: int| 0 <= i < v.len() implies wire_name((#[trigger] v[i]).number as nat)
                != id by {
                if i < front.len() {
                    assert(front[i] == v[i]);
                }
            }
        }
    }
}

/// A machine that was met is found by its key, and not found only where it was not met.
pub proof fn a_stranger_is_found_by_its_key(v: Seq<Stranger>, id: Seq<char>)
    ensures
        match stranger_among(v, id) {
            Some(i) => 0 <= i < v.len() && v[i].id@ == id,
            None => forall|i: int| 0 <= i < v.len() ==> (#[trigger] v[i]).id@ != id,
        },
    decreases v.len(),
{
    if v.len() > 0 && v.last().id@ != id {
        let front = v.drop_last();
        a_stranger_is_found_by_its_key(front, id);
        if stranger_among(front, id) is None {
            assert forall|i: int| 0 <= i < v.len() implies (#[trigger] v[i]).id@ != id by {
                if i < front.len() {
                    assert(front[i] == v[i]);
                }
            }
        }
    }
}

/// What a probe found is answered as what it is: found, nothing there, or something wrong.
pub proof fn a_probe_is_answered_as_it_went(addr: Seq<char>, p: Probed)
    ensures
        (probe_answer(addr, p) is Ok) == (p is Found),
        p is Silent ==> probe_answer(addr, p) == Err::<Given, Fault>(
            Fault::NotFound("nothing answered at "@ + addr),
        ),
        p is Wrong ==> probe_answer(addr, p) == Err::<Given, Fault>(
            Fault::NotFound(addr + ": "@ + p->Wrong_0@),
        ),
        p is NoKey ==> probe_answer(addr, p) == Err::<Given, Fault>(Fault::Internal(p->NoKey_0@)),
{
}

/// What another machine would not do is told with its reason, and a reply that went well is one.
pub proof fn a_refusal_over_there_is_told_here(r: Refusal, ok: bool, message: Seq<char>)
    ensures
        r is NoSuchAgent ==> refusal_said(r) == "that conversation is not there any more"@,
        r is NotPermitted ==> refusal_said(r) == r->NotPermitted_0@,
        r is Busy ==> refusal_said(r) == r->Busy_0@,
        r is Failed ==> refusal_said(r) == r->Failed_0@,
        (reply_of(ok, message) is Ok) == ok,
        !ok ==> reply_of(ok, message) == Err::<Given, Fault>(Fault::Denied(message)),
{
}

// ---- what the others do -----------------------------------------------------

/// Each thing that is done when another machine does something is done for what calls for it: what is
/// up is up, what is lost is lost, what was asked is run and what was said is passed on.
pub proof fn each_thing_over_there_is_acted_on(
    s: Swarm,
    event: SwarmEvent,
    peer: Option<&Peer>,
    short: Seq<char>,
)
    ensures
        ({
            let v = swarm_follows(s, event, peer, short);
            &&& v.contains(Did::Up) == (event is PeerUp)
            &&& v.contains(Did::Publish) == (event is PeerUp && (peer is None || !peer->0.up))
            &&& v.contains(Did::Inventory) == (event is Inventory)
            &&& v.contains(Did::Stream) == (event is Stream)
            &&& v.contains(Did::Run) == (event is Command)
            &&& v.contains(Did::History) == (event is Subscribed && s.me is Some && !texts(
                s.watched@,
            ).contains(event->Subscribed_0@))
            &&& event is PeerDown ==> v.len() > 0 && v[0] is Down
            &&& v.contains(Did::Changed) == (event is PeerUp || event is PeerDown
                || event is Inventory || event is Stranger)
        }),
{
    let v = swarm_follows(s, event, peer, short);
    match event {
        SwarmEvent::PeerDown(_) => {
            assert(v[0] is Down);
            assert(v[v.len() - 1] == Did::Changed);
            assert forall|i: int| 0 <= i < v.len() implies #[trigger] v[i] is Down || v[i] is Say
                || v[i] is Settle || v[i] is Changed by {
                if 2 <= i < v.len() - 1 {
                    let name = crate::host::peers::called(peer, short);
                    assert(v[i] == crate::host::peers::orphans(s.pending@, name)[i - 2]);
                }
            }
        },
        _ => {
            assert(v.len() <= 4);
            lemma_few_dids(v);
        },
    }
}

proof fn lemma_few_dids(a: Seq<Did>)
    requires
        a.len() <= 4,
    ensures
        forall|d: Did| #[trigger]
            a.contains(d) == ((a.len() > 0 && a[0] == d) || (a.len() > 1 && a[1] == d) || (a.len()
                > 2 && a[2] == d) || (a.len() > 3 && a[3] == d)),
{
    assert forall|d: Did| #[trigger]
        a.contains(d) == ((a.len() > 0 && a[0] == d) || (a.len() > 1 && a[1] == d) || (a.len() > 2
            && a[2] == d) || (a.len() > 3 && a[3] == d)) by {
        if a.len() > 0 && a[0] == d {
            assert(a.contains(d));
        }
        if a.len() > 1 && a[1] == d {
            assert(a.contains(d));
        }
        if a.len() > 2 && a[2] == d {
            assert(a.contains(d));
        }
        if a.len() > 3 && a[3] == d {
            assert(a.contains(d));
        }
    }
}

/// Whoever joins or asks to is named once; a machine that was up already, was dialled from here, or
/// has been met before is not announced again.
pub proof fn nobody_is_announced_twice(
    s: Swarm,
    id: String,
    name: String,
    dialled: bool,
    peer: Option<&Peer>,
    short: Seq<char>,
)
    ensures
        swarm_follows(s, SwarmEvent::PeerUp(id, name), peer, short).contains(
            Did::Say(MessageLevel::Info, name@ + " joined the swarm"@),
        ) == (peer is None || !peer->0.up),
        swarm_follows(s, SwarmEvent::Stranger(id, name, dialled), peer, short).contains(
            Did::Say(
                MessageLevel::Info,
                name@ + " wants to join this workspace \u{2014} ^J to allow it"@,
            ),
        ) == (!dialled && forall|i: int|
            0 <= i < s.strangers@.len() ==> (#[trigger] s.strangers@[i]).id@ != id@),
{
    let a = swarm_follows(s, SwarmEvent::PeerUp(id, name), peer, short);
    assert(a.len() <= 4);
    lemma_few_dids(a);
    let b = swarm_follows(s, SwarmEvent::Stranger(id, name, dialled), peer, short);
    assert(b.len() <= 4);
    lemma_few_dids(b);
    a_stranger_is_found_by_its_key(s.strangers@, id@);
}

/// An answer settles the one who waited for it, as it went, and nobody else goes on waiting less or
/// longer for it.
pub proof fn an_answer_settles_the_one_who_waited(
    s: Swarm,
    id: String,
    refusal: Option<Refusal>,
    peer: Option<&Peer>,
    short: Seq<char>,
    i: int,
)
    requires
        s.wf(),
        0 <= i < s.pending@.len(),
        wire_name(s.pending@[i].number as nat) == id@,
    ensures
        ({
            let v = swarm_follows(s, SwarmEvent::Answer(id, refusal), peer, short);
            let left = pending_after(s, SwarmEvent::Answer(id, refusal));
            &&& v.len() == 1
            &&& v[0] is Settle
            &&& v[0]->Settle_0 == s.pending@[i].waiting
            &&& (v[0]->Settle_1 is Ok) == (refusal is None)
            &&& refusal is Some ==> v[0]->Settle_1 == Err::<Given, Fault>(
                Fault::Denied(refusal_said(refusal->0)),
            )
            &&& left.len() + 1 == s.pending@.len()
            &&& left == s.pending@.remove(i)
        }),
{
    an_answer_finds_its_command(s.pending@, id@);
    let j = sent_as(s.pending@, id@)->0;
    crate::host::swarm::no_two_commands_share_a_name(
        s.pending@[i].number as nat,
        s.pending@[j].number as nat,
    );
    if i < j {
        assert(s.pending@[i].number < s.pending@[j].number);
    }
    if j < i {
        assert(s.pending@[j].number < s.pending@[i].number);
    }
}

/// Nothing but an answer or the loss of a machine ends a wait.
pub proof fn only_an_answer_or_a_loss_ends_a_wait(s: Swarm, event: SwarmEvent)
    ensures
        pending_after(s, event) != s.pending@ ==> event is Answer || event is PeerDown,
        event is Subscribed ==> watched_after(s, event).contains(event->Subscribed_0@),
        texts(s.watched@).is_prefix_of(watched_after(s, event)),
        !(event is Subscribed) ==> watched_after(s, event) == texts(s.watched@),
{
    if event is Subscribed {
        let w = texts(s.watched@).push(event->Subscribed_0@);
        assert(w[w.len() - 1] == event->Subscribed_0@);
    }
}

/// What another machine asks for is done, each as what it is, and refused only where there is no such
/// directory or model here, or where it is not another machine's to say.
pub proof fn what_is_asked_from_afar_is_done_here(
    c: AgentCommand,
    known: bool,
    is_dir: bool,
    served: bool,
    turn: Option<Turn>,
)
    ensures
        (refusal_of(c, known, is_dir, served) is Some) == (c is Approve || (c is NewSession
            && !is_dir) || (c is SetModel && !served)),
        refusal_of(c, known, is_dir, served) is Some ==> match refusal_of(
            c,
            known,
            is_dir,
            served,
        )->0 {
            (denied, _) => denied == (c is Approve),
        },
        (deed_of(c, turn) == Deed::NewSession) == (c is NewSession),
        (deed_of(c, turn) == Deed::StartTurn) == (c is Send),
        (deed_of(c, turn) == Deed::Interrupted) == (c is Interrupt && turn is Some
            && !turn->0.cancelling),
        (deed_of(c, turn) == Deed::Rename) == (c is Rename),
        (deed_of(c, turn) == Deed::Archive) == (c is Archive),
        (deed_of(c, turn) == Deed::SetModel) == (c is SetModel),
{
}

/// Each directory that conversations are in is shown once, for the first of them.
pub proof fn each_directory_is_shown_once(v: Seq<Placed>)
    ensures
        forall|i: int| #[trigger]
            firsts(v).contains(i) == (0 <= i < v.len() && forall|j: int|
                0 <= j < i ==> (#[trigger] v[j]).cwd@ != v[i].cwd@),
    decreases v.len(),
{
    if v.len() > 0 {
        let front = v.drop_last();
        let n = v.len() - 1;
        each_directory_is_shown_once(front);
        let rest = firsts(front);
        let all = firsts(v);
        assert forall|i: int| #[trigger]
            all.contains(i) == (0 <= i < v.len() && forall|j: int|
                0 <= j < i ==> (#[trigger] v[j]).cwd@ != v[i].cwd@) by {
            if all.contains(i) {
                let k = choose|k: int| 0 <= k < all.len() && all[k] == i;
                if k < rest.len() {
                    assert(rest[k] == i);
                    assert(rest.contains(i));
                    assert forall|j: int| 0 <= j < i implies (#[trigger] v[j]).cwd@ != v[i].cwd@ by {
                        assert(front[j].cwd@ != front[i].cwd@);
                    }
                } else {
                    assert(!placed_before(v, n));
                }
            }
            if 0 <= i < n && forall|j: int| 0 <= j < i ==> (#[trigger] v[j]).cwd@ != v[i].cwd@ {
                assert forall|j: int| 0 <= j < i implies (#[trigger] front[j]).cwd@
                    != front[i].cwd@ by {
                    assert(v[j].cwd@ != v[i].cwd@);
                }
                assert(rest.contains(i));
                let k = choose|k: int| 0 <= k < rest.len() && rest[k] == i;
                assert(all[k] == i);
            }
            if i == n && forall|j: int| 0 <= j < i ==> (#[trigger] v[j]).cwd@ != v[i].cwd@ {
                assert(!placed_before(v, n));
                assert(all[rest.len() as int] == n);
            }
        }
    }
}

} // verus!
