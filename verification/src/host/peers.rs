//! What other machines say, and what they may have done here.

use crate::host::calls::{ApiError, Fault, Given, Refusal};
use crate::host::rank::{in_rank, indices, rank, ranks, Rank};
use crate::host::rounds::{lemma_turn_of, turn_of, Turn, Turns};
use crate::host::swarm::{
    refusal_said, refusal_text, result_of, sent_as, stranger_among, text_of, Sent,
    Stranger, Swarm, Waiting,
};
use crate::notify::{MessageLevel, SessionId};
use crate::text::{same_text, texts};
use crate::words::concat;
use vstd::prelude::*;

verus! {

// ---- what they say ----------------------------------------------------------

/// Something another machine did.
#[derive(Debug)]
pub enum SwarmEvent {
    /// Which, and what it is called.
    PeerUp(String, String),
    PeerDown(String),
    Inventory,
    Stream,
    /// Which, what it is called, and whether it was this machine that dialled.
    Stranger(String, String, bool),
    /// To which command, and why not.
    Answer(String, Option<Refusal>),
    Subscribed(String),
    Unsubscribed,
    Command,
}

/// What this machine knew of the one an event is about.
#[derive(Debug)]
pub struct Peer {
    pub name: String,
    pub up: bool,
}

/// What follows.
#[derive(Debug)]
pub enum SwarmStep {
    /// It is up, or down, from here on.
    Up,
    Down,
    Inventory,
    Say(MessageLevel, String),
    /// Tell every machine what is here.
    Publish,
    /// Tell every plugin that something about the swarm changed.
    Changed,
    /// Tell every plugin what was said over there.
    Stream,
    /// Everything said so far, to somebody who has just begun to watch.
    History,
    /// Somebody who waited is answered.
    Settle(Waiting, Result<Given, ApiError>),
    /// Do what is asked, and answer exactly once.
    Run,
}

/// What follows, as plain values.
pub enum Did {
    Up,
    Down,
    Inventory,
    Say(MessageLevel, Seq<char>),
    Publish,
    Changed,
    Stream,
    History,
    Settle(Waiting, Result<Given, Fault>),
    Run,
}

impl View for SwarmStep {
    type V = Did;

    open spec fn view(&self) -> Did {
        match self {
            SwarmStep::Up => Did::Up,
            SwarmStep::Down => Did::Down,
            SwarmStep::Inventory => Did::Inventory,
            SwarmStep::Say(l, s) => Did::Say(*l, s@),
            SwarmStep::Publish => Did::Publish,
            SwarmStep::Changed => Did::Changed,
            SwarmStep::Stream => Did::Stream,
            SwarmStep::History => Did::History,
            SwarmStep::Settle(w, r) => Did::Settle(*w, result_of(*r)),
            SwarmStep::Run => Did::Run,
        }
    }
}

pub open spec fn dids(v: Seq<SwarmStep>) -> Seq<Did> {
    v.map_values(|s: SwarmStep| s@)
}

/// What is said to everybody who waits for a machine that is gone.
pub open spec fn orphans(pending: Seq<Sent>, name: Seq<char>) -> Seq<Did> {
    pending.map_values(
        |s: Sent|
            Did::Settle(s.waiting, Err(Fault::NotFound(name + " went away before answering"@))),
    )
}

/// What a machine is called: by its name where it is known, and by the start of its key where not.
pub open spec fn called(peer: Option<&Peer>, short: Seq<char>) -> Seq<char> {
    match peer {
        Some(p) => p.name@,
        None => short,
    }
}

/// What follows from something another machine did.
pub open spec fn swarm_follows(
    s: Swarm,
    event: SwarmEvent,
    peer: Option<&Peer>,
    short: Seq<char>,
) -> Seq<Did> {
    match event {
        SwarmEvent::PeerUp(_, name) => seq![Did::Up] + (if peer is None || !peer->0.up {
            seq![Did::Say(MessageLevel::Info, name@ + " joined the swarm"@), Did::Publish]
        } else {
            seq![]
        }) + seq![Did::Changed],
        SwarmEvent::PeerDown(_) => seq![
            Did::Down,
            Did::Say(MessageLevel::Warn, "lost "@ + called(peer, short)),
        ] + orphans(s.pending@, called(peer, short)) + seq![Did::Changed],
        SwarmEvent::Inventory => seq![Did::Inventory, Did::Changed],
        SwarmEvent::Stream => seq![Did::Stream],
        SwarmEvent::Stranger(id, name, dialled) => (if !dialled && stranger_among(
            s.strangers@,
            id@,
        ) is None {
            seq![
                Did::Say(
                    MessageLevel::Info,
                    name@ + " wants to join this workspace \u{2014} ^J to allow it"@,
                ),
            ]
        } else {
            seq![]
        }) + seq![Did::Changed],
        SwarmEvent::Answer(id, refusal) => match sent_as(s.pending@, id@) {
            None => seq![],
            Some(i) => seq![
                Did::Settle(
                    s.pending@[i].waiting,
                    match refusal {
                        None => Ok(Given::Unit),
                        Some(r) => Err(Fault::Denied(refusal_said(r))),
                    },
                ),
            ],
        },
        SwarmEvent::Subscribed(session) => if !texts(s.watched@).contains(session@) && s.me is Some {
            seq![Did::History]
        } else {
            seq![]
        },
        SwarmEvent::Unsubscribed => seq![],
        SwarmEvent::Command => seq![Did::Run],
    }
}

/// Who waits, after something another machine did.
pub open spec fn pending_after(s: Swarm, event: SwarmEvent) -> Seq<Sent> {
    match event {
        SwarmEvent::PeerDown(_) => seq![],
        SwarmEvent::Answer(id, _) => match sent_as(s.pending@, id@) {
            None => s.pending@,
            Some(i) => s.pending@.remove(i),
        },
        _ => s.pending@,
    }
}

/// What is watched, after something another machine did. Nothing is taken out: another machine may
/// still be watching.
pub open spec fn watched_after(s: Swarm, event: SwarmEvent) -> Seq<Seq<char>> {
    match event {
        SwarmEvent::Subscribed(session) => if texts(s.watched@).contains(session@) {
            texts(s.watched@)
        } else {
            texts(s.watched@).push(session@)
        },
        _ => texts(s.watched@),
    }
}

/// A stranger as plain values.
pub open spec fn seen(s: Stranger) -> (Seq<char>, Seq<char>, bool, Option<Seq<char>>) {
    (s.id@, s.name@, s.dialled, text_of(s.addr))
}

/// Whether these are the strangers after something another machine did. The address only means
/// anything where this machine was the one dialling.
pub open spec fn strangers_after(
    s: Swarm,
    event: SwarmEvent,
    addr: Option<String>,
    now: Seq<Stranger>,
) -> bool {
    match event {
        SwarmEvent::Stranger(id, name, dialled) => {
            let is = (
                id@,
                name@,
                dialled,
                if dialled {
                    text_of(addr)
                } else {
                    None
                },
            );
            match stranger_among(s.strangers@, id@) {
                Some(i) => now.len() == s.strangers@.len() && seen(now[i]) == is && forall|j: int|
                    0 <= j < now.len() && j != i ==> #[trigger] now[j] == s.strangers@[j],
                None => now.len() == s.strangers@.len() + 1 && now.drop_last() == s.strangers@
                    && seen(now.last()) == is,
            }
        },
        _ => now == s.strangers@,
    }
}

fn push(v: &mut Vec<SwarmStep>, s: SwarmStep)
    ensures
        dids(final(v)@) == dids(old(v)@).push(s@),
{
    let ghost was = dids(v@);
    v.push(s);
    assert(dids(v@) =~= was.push(s@));
}

fn find_stranger(v: &Vec<Stranger>, id: &str) -> (r: Option<usize>)
    ensures
        match r {
            Some(i) => i < v@.len() && stranger_among(v@, id@) == Some(i as int),
            None => stranger_among(v@, id@) is None,
        },
{
    let mut i: usize = v.len();
    assert(v@.take(i as int) =~= v@);
    while i > 0
        invariant
            i <= v@.len(),
            stranger_among(v@, id@) == stranger_among(v@.take(i as int), id@),
        decreases i,
    {
        assert(v@.take(i as int).drop_last() =~= v@.take(i - 1));
        if same_text(v[i - 1].id.as_str(), id) {
            return Some(i - 1);
        }
        i = i - 1;
    }
    None
}

impl Swarm {
    /// Everybody who waits is told that there will be no answer.
    fn orphan(&mut self, name: &str, steps: &mut Vec<SwarmStep>)
        ensures
            *final(self) == (Swarm { pending: final(self).pending, ..*old(self) }),
            final(self).pending@.len() == 0,
            dids(final(steps)@) == dids(old(steps)@) + orphans(old(self).pending@, name@),
    {
        let ghost all = self.pending@;
        let ghost before = dids(steps@);
        assert(dids(steps@) =~= before + orphans(all.take(0), name@));
        let mut done: Ghost<int> = Ghost(0);
        assert(all.skip(0) =~= all);
        while self.pending.len() > 0
            invariant
                *self == (Swarm { pending: self.pending, ..*old(self) }),
                0 <= done@ <= all.len(),
                self.pending@ == all.skip(done@),
                dids(steps@) == before + orphans(all.take(done@), name@),
            decreases self.pending@.len(),
        {
            let ghost n = done@;
            let sent = self.pending.remove(0);
            proof {
                assert(sent == all[n]);
                assert(all.take(n + 1).drop_last() =~= all.take(n));
                assert(orphans(all.take(n + 1), name@) =~= orphans(all.take(n), name@).push(
                    Did::Settle(
                        all[n].waiting,
                        Err(Fault::NotFound(name@ + " went away before answering"@)),
                    ),
                ));
                assert(self.pending@ =~= all.skip(n + 1));
            }
            push(
                steps,
                SwarmStep::Settle(
                    sent.waiting,
                    Err(ApiError::NotFound(concat(name, " went away before answering"))),
                ),
            );
            assert(dids(steps@) =~= before + orphans(all.take(n + 1), name@));
            proof {
                done@ = n + 1;
            }
        }
        assert(all.take(done@) =~= all);
    }

    /// A machine that is not known is there.
    fn meet(&mut self, id: String, name: String, dialled: bool, addr: Option<String>) -> (first: bool)
        ensures
            *final(self) == (Swarm { strangers: final(self).strangers, ..*old(self) }),
            first == stranger_among(old(self).strangers@, id@) is None,
            strangers_after(
                *old(self),
                SwarmEvent::Stranger(id, name, dialled),
                addr,
                final(self).strangers@,
            ),
    {
        let addr = if dialled {
            addr
        } else {
            None
        };
        match find_stranger(&self.strangers, id.as_str()) {
            Some(i) => {
                self.strangers[i] = Stranger { id, name, dialled, addr };
                false
            },
            None => {
                let ghost was = self.strangers@;
                self.strangers.push(Stranger { id, name, dialled, addr });
                assert(self.strangers@.drop_last() =~= was);
                true
            },
        }
    }

    /// Somebody watches a conversation, and whether nobody did before.
    fn watch(&mut self, session: String) -> (fresh: bool)
        ensures
            *final(self) == (Swarm { watched: final(self).watched, ..*old(self) }),
            fresh == !texts(old(self).watched@).contains(session@),
            texts(final(self).watched@) == (if fresh {
                texts(old(self).watched@).push(session@)
            } else {
                texts(old(self).watched@)
            }),
    {
        let ghost was = texts(self.watched@);
        if self.is_watched(session.as_str()) {
            return false;
        }
        self.watched.push(session);
        assert(texts(self.watched@) =~= was.push(session@));
        true
    }

    fn is_watched(&self, session: &str) -> (r: bool)
        ensures
            r == texts(self.watched@).contains(session@),
    {
        let mut i: usize = 0;
        while i < self.watched.len()
            invariant
                i <= self.watched@.len(),
                forall|j: int| 0 <= j < i ==> (#[trigger] self.watched@[j])@ != session@,
            decreases self.watched@.len() - i,
        {
            if same_text(self.watched[i].as_str(), session) {
                assert(texts(self.watched@)[i as int] == session@);
                return true;
            }
            i = i + 1;
        }
        proof {
            let v = texts(self.watched@);
            if v.contains(session@) {
                let k = choose|k: int| 0 <= k < v.len() && v[k] == session@;
                assert(self.watched@[k]@ != session@);
            }
        }
        false
    }

    /// Whether anything would come of streaming a conversation.
    pub fn is_streamed(&self, session: &str) -> (r: bool)
        ensures
            r == (self.me is Some && texts(self.watched@).contains(session@)),
    {
        self.me.is_some() && self.is_watched(session)
    }

    /// One thing another machine did. `short` is the start of its key, and `addr` where it is let in
    /// from.
    pub fn on_swarm_event(
        &mut self,
        event: SwarmEvent,
        peer: Option<&Peer>,
        short: &str,
        addr: Option<String>,
    ) -> (r: Vec<SwarmStep>)
        requires
            old(self).wf(),
        ensures
            final(self).wf(),
            final(self).me == old(self).me,
            final(self).next == old(self).next,
            dids(r@) == swarm_follows(*old(self), event, peer, short@),
            final(self).pending@ == pending_after(*old(self), event),
            texts(final(self).watched@) == watched_after(*old(self), event),
            strangers_after(*old(self), event, addr, final(self).strangers@),
    {
        let ghost was = *self;
        let mut r: Vec<SwarmStep> = Vec::new();
        assert(dids(r@) =~= seq![]);
        match event {
            SwarmEvent::PeerUp(_, name) => {
                let first = match peer {
                    Some(p) => !p.up,
                    None => true,
                };
                push(&mut r, SwarmStep::Up);
                if first {
                    push(
                        &mut r,
                        SwarmStep::Say(
                            MessageLevel::Info,
                            concat(name.as_str(), " joined the swarm"),
                        ),
                    );
                    // It has just connected and knows nothing about us until we say so.
                    push(&mut r, SwarmStep::Publish);
                }
                push(&mut r, SwarmStep::Changed);
                assert(dids(r@) =~= swarm_follows(was, event, peer, short@));
            },
            SwarmEvent::PeerDown(_) => {
                let name = match peer {
                    Some(p) => p.name.clone(),
                    None => short.to_owned(),
                };
                push(&mut r, SwarmStep::Down);
                push(&mut r, SwarmStep::Say(MessageLevel::Warn, concat("lost ", name.as_str())));
                // Anything still waiting on that machine will never be answered by it.
                self.orphan(name.as_str(), &mut r);
                push(&mut r, SwarmStep::Changed);
                assert(dids(r@) =~= swarm_follows(was, event, peer, short@));
                assert(self.pending@ =~= seq![]);
            },
            SwarmEvent::Inventory => {
                push(&mut r, SwarmStep::Inventory);
                push(&mut r, SwarmStep::Changed);
                assert(dids(r@) =~= swarm_follows(was, event, peer, short@));
            },
            SwarmEvent::Stream => {
                push(&mut r, SwarmStep::Stream);
                assert(dids(r@) =~= swarm_follows(was, event, peer, short@));
            },
            SwarmEvent::Stranger(id, name, dialled) => {
                let text = concat(
                    name.as_str(),
                    " wants to join this workspace \u{2014} ^J to allow it",
                );
                let first = self.meet(id, name, dialled, addr);
                // Said once. A machine that dials every ten seconds must not produce a
                // notification every ten seconds.
                if first && !dialled {
                    push(&mut r, SwarmStep::Say(MessageLevel::Info, text));
                }
                push(&mut r, SwarmStep::Changed);
                assert(dids(r@) =~= swarm_follows(was, event, peer, short@));
            },
            SwarmEvent::Answer(id, refusal) => {
                let (ok, message) = match &refusal {
                    None => (true, String::new()),
                    Some(x) => (false, refusal_text(x)),
                };
                if let Some((waiting, result)) = self.on_swarm_reply(id.as_str(), ok, message) {
                    push(&mut r, SwarmStep::Settle(waiting, result));
                }
                assert(dids(r@) =~= swarm_follows(was, event, peer, short@));
            },
            SwarmEvent::Subscribed(session) => {
                // Everything said so far, once. A watcher that only received what is new would show
                // an empty conversation until the next word.
                if self.watch(session) && self.me.is_some() {
                    push(&mut r, SwarmStep::History);
                }
                assert(dids(r@) =~= swarm_follows(was, event, peer, short@));
            },
            SwarmEvent::Unsubscribed => {},
            SwarmEvent::Command => {
                push(&mut r, SwarmStep::Run);
                assert(dids(r@) =~= swarm_follows(was, event, peer, short@));
            },
        }
        r
    }
}

/// Whoever waits for a machine that is gone is told so: nobody waits for ever.
pub proof fn nobody_waits_for_a_machine_that_is_gone(
    s: Swarm,
    id: String,
    peer: Option<&Peer>,
    short: Seq<char>,
    i: int,
)
    requires
        0 <= i < s.pending@.len(),
    ensures
        swarm_follows(s, SwarmEvent::PeerDown(id), peer, short).contains(
            Did::Settle(
                s.pending@[i].waiting,
                Err(Fault::NotFound(called(peer, short) + " went away before answering"@)),
            ),
        ),
        pending_after(s, SwarmEvent::PeerDown(id)).len() == 0,
{
    let v = swarm_follows(s, SwarmEvent::PeerDown(id), peer, short);
    let o = orphans(s.pending@, called(peer, short));
    assert(v[2 + i] == o[i]);
}

// ---- what they may have done ------------------------------------------------

/// Something to do to a conversation here.
#[derive(Debug)]
pub enum AgentCommand {
    /// In which directory, as it would be shown.
    NewSession(String),
    Send,
    Interrupt,
    Rename,
    Archive,
    /// On which instance, and which model.
    SetModel(String, String),
    Approve,
}

/// What doing it comes to.
#[derive(Debug, Clone, Copy, PartialEq, Eq, Structural)]
pub enum Deed {
    NewSession,
    StartTurn,
    /// A turn was there and is asked to stop.
    Interrupted,
    Nothing,
    Rename,
    Archive,
    SetModel,
}

/// Why a command is refused, if it is.
pub open spec fn refusal_of(c: AgentCommand, known: bool, is_dir: bool, served: bool) -> Option<
    (bool, Seq<char>),
> {
    match c {
        AgentCommand::NewSession(dir) => if is_dir {
            None
        } else {
            Some((false, dir@ + " is not a directory here"@))
        },
        AgentCommand::SetModel(instance, model) => if served {
            None
        } else {
            Some((false, instance@ + "/"@ + model@ + " is not a model this machine has"@))
        },
        AgentCommand::Approve => Some(
            (true, "approvals are answered by a plugin on this machine, not over the swarm"@),
        ),
        _ => None,
    }
}

/// What a command comes to, in a conversation where a turn is running or not.
pub open spec fn deed_of(c: AgentCommand, turn: Option<Turn>) -> Deed {
    match c {
        AgentCommand::NewSession(_) => Deed::NewSession,
        AgentCommand::Send => Deed::StartTurn,
        AgentCommand::Interrupt => if turn is Some && !turn->0.cancelling {
            Deed::Interrupted
        } else {
            Deed::Nothing
        },
        AgentCommand::Rename => Deed::Rename,
        AgentCommand::Archive => Deed::Archive,
        AgentCommand::SetModel(_, _) => Deed::SetModel,
        AgentCommand::Approve => Deed::Nothing,
    }
}

/// Whether every machine is told of what is here afterwards.
pub fn is_published(d: Deed) -> (r: bool)
    ensures
        r == (d == Deed::NewSession || d == Deed::Rename || d == Deed::Archive || d
            == Deed::SetModel),
{
    match d {
        Deed::NewSession => true,
        Deed::Rename => true,
        Deed::Archive => true,
        Deed::SetModel => true,
        _ => false,
    }
}

impl Turns {
    /// Do one thing to a conversation on this machine: the single body behind both ways of asking,
    /// from another machine and from a plugin here, so that a refusal is refused for the same
    /// reason on both.
    ///
    /// `known` is whether there is such a conversation, `is_dir` whether what is named is a
    /// directory, and `served` whether this machine has the model.
    pub fn apply_agent_command(
        &mut self,
        session: &SessionId,
        command: &AgentCommand,
        known: bool,
        is_dir: bool,
        served: bool,
    ) -> (r: Result<Deed, Refusal>)
        requires
            old(self).wf(),
        ensures
            final(self).wf(),
            match r {
                Err(Refusal::NoSuchAgent) => !known && !(command is NewSession),
                Err(Refusal::Failed(m)) => (known || command is NewSession) && refusal_of(
                    *command,
                    known,
                    is_dir,
                    served,
                ) == Some((false, m@)),
                Err(Refusal::NotPermitted(m)) => known && refusal_of(
                    *command,
                    known,
                    is_dir,
                    served,
                ) == Some((true, m@)),
                Err(Refusal::Busy(_)) => false,
                Ok(d) => (known || command is NewSession) && refusal_of(
                    *command,
                    known,
                    is_dir,
                    served,
                ) is None && d == deed_of(
                    *command,
                    match turn_of(old(self).running@, session.0@) {
                        Some(i) => Some(old(self).running@[i]),
                        None => None,
                    },
                ),
            },
            if r == Ok::<Deed, Refusal>(Deed::Interrupted) {
                let i = turn_of(old(self).running@, session.0@)->0;
                final(self).running@ == old(self).running@.update(
                    i,
                    Turn { cancelling: true, ..old(self).running@[i] },
                )
            } else {
                final(self).running@ == old(self).running@
            },
    {
        if let AgentCommand::NewSession(dir) = command {
            if is_dir {
                return Ok(Deed::NewSession);
            }
            return Err(Refusal::Failed(concat(dir.as_str(), " is not a directory here")));
        }
        if !known {
            return Err(Refusal::NoSuchAgent);
        }
        match command {
            AgentCommand::NewSession(_) => Ok(Deed::NewSession),
            AgentCommand::Send => Ok(Deed::StartTurn),
            // The same ask `<Esc>` makes: two machines interrupting once each is one interruption.
            AgentCommand::Interrupt => {
                let ghost was = self.running@;
                match self.cancel(session) {
                    Some(true) => Ok(Deed::Interrupted),
                    Some(false) => {
                        let ghost i = turn_of(was, session.0@)->0;
                        proof {
                            lemma_turn_of(was, session.0@);
                            assert((Turn { cancelling: true, ..was[i] }) == was[i]);
                        }
                        assert(self.running@ =~= was);
                        Ok(Deed::Nothing)
                    },
                    None => Ok(Deed::Nothing),
                }
            },
            AgentCommand::Rename => Ok(Deed::Rename),
            AgentCommand::Archive => Ok(Deed::Archive),
            // The far end names a model from *its* catalogue, and this machine may not have that
            // provider at all.
            AgentCommand::SetModel(instance, model) => if served {
                Ok(Deed::SetModel)
            } else {
                let mut text = instance.clone();
                text.push_str("/");
                text.push_str(model.as_str());
                text.push_str(" is not a model this machine has");
                Err(Refusal::Failed(text))
            },
            // A silent success would be a remote machine believing it had authorised something.
            AgentCommand::Approve => Err(
                Refusal::NotPermitted(
                    "approvals are answered by a plugin on this machine, not over the swarm".to_owned(),
                ),
            ),
        }
    }
}

/// What a machine is paired as, and where it is dialled. Whatever it called itself wins over what we
/// were told to call it, and an address that was given over the one it was met at.
pub fn pair_as(stranger: Option<&Stranger>, name: String, addr: Option<String>) -> (r: (
    String,
    Option<String>,
))
    ensures
        r.0@ == (if stranger is Some && stranger->0.name@.len() > 0 {
            stranger->0.name@
        } else {
            name@
        }),
        text_of(r.1) == (if addr is Some {
            text_of(addr)
        } else if stranger is Some {
            text_of(stranger->0.addr)
        } else {
            None
        }),
{
    match stranger {
        None => (name, addr),
        Some(s) => {
            let called = if same_text(s.name.as_str(), "") {
                name
            } else {
                s.name.clone()
            };
            proof {
                reveal_strlit("");
                if s.name@.len() == 0 {
                    assert(s.name@ =~= ""@);
                }
            }
            let at = match addr {
                Some(a) => Some(a),
                None => match &s.addr {
                    Some(a) => Some(a.clone()),
                    None => None,
                },
            };
            (called, at)
        },
    }
}

// ---- what is here -----------------------------------------------------------

/// A conversation here, as other machines see where it is.
#[derive(Debug)]
pub struct Placed {
    pub key: String,
    pub project: String,
    pub cwd: String,
}

/// The first conversation in each directory, in the order they come.
pub open spec fn firsts(v: Seq<Placed>) -> Seq<int>
    decreases v.len(),
{
    if v.len() == 0 {
        seq![]
    } else {
        let rest = firsts(v.drop_last());
        if placed_before(v, v.len() - 1) {
            rest
        } else {
            rest.push(v.len() - 1)
        }
    }
}

/// Whether a conversation before the `n`th is in the same directory.
pub open spec fn placed_before(v: Seq<Placed>, n: int) -> bool {
    exists|i: int| 0 <= i < n && (#[trigger] v[i]).cwd@ == v[n].cwd@
}

/// What the places of some conversations are put in order by.
pub open spec fn place_ranks(v: Seq<Placed>, of: Seq<int>) -> Seq<Rank> {
    of.map_values(|i: int| (0int, v[i].project@))
}

/// The places something can be started in, as the conversations they were found by: each directory
/// once, in the order of their names.
pub open spec fn places(v: Seq<Placed>) -> Seq<int> {
    let f = firsts(v);
    in_rank(place_ranks(v, f), f.len() as int).map_values(|i: int| f[i])
}

/// The places something can be started in, for another machine's menu, each as which of the
/// conversations it is. They are where conversations already are: a list of every repository on
/// somebody's laptop is more than another machine needs to know.
pub fn local_projects(v: &Vec<Placed>) -> (r: Vec<usize>)
    ensures
        indices(r@) == places(v@),
{
    let mut found: Vec<usize> = Vec::new();
    let mut keys: Vec<(i32, String)> = Vec::new();
    let mut n: usize = 0;
    assert(indices(found@) =~= firsts(v@.take(0)));
    while n < v.len()
        invariant
            n <= v@.len(),
            indices(found@) == firsts(v@.take(n as int)),
            forall|i: int| 0 <= i < found@.len() ==> #[trigger] found@[i] < n,
            keys@.len() == found@.len(),
            forall|i: int|
                0 <= i < keys@.len() ==> (#[trigger] keys@[i]).0 == 0 && keys@[i].1@
                    == v@[found@[i] as int].project@,
        decreases v@.len() - n,
    {
        let ghost upto = v@.take(n + 1);
        assert(upto.drop_last() =~= v@.take(n as int));
        let mut k: usize = 0;
        let mut there = false;
        while k < n && !there
            invariant
                k <= n < v@.len(),
                upto == v@.take(n + 1),
                there == exists|i: int| 0 <= i < k && (#[trigger] upto[i]).cwd@ == upto[n as int].cwd@,
            decreases n - k + (if there { 0int } else { 1 }),
        {
            assert(upto[k as int] == v@[k as int]);
            assert(upto[n as int] == v@[n as int]);
            if same_text(v[k].cwd.as_str(), v[n].cwd.as_str()) {
                there = true;
            }
            k = k + 1;
        }
        assert(there == placed_before(upto, n as int));
        if !there {
            let ghost was = indices(found@);
            found.push(n);
            keys.push((0, v[n].project.clone()));
            assert(indices(found@) =~= was.push(n as int));
        }
        n = n + 1;
    }
    assert(v@.take(n as int) =~= v@);
    let ghost f = firsts(v@);
    assert(ranks(keys@) =~= place_ranks(v@, f)) by {
        assert(f == indices(found@));
        assert forall|i: int| 0 <= i < keys@.len() implies #[trigger] ranks(keys@)[i]
            == place_ranks(v@, f)[i] by {
            assert(f[i] == found@[i]);
            assert(keys@[i].0 == 0);
        }
    }
    let order = rank(&keys);
    let mut r: Vec<usize> = Vec::new();
    let mut i: usize = 0;
    while i < order.len()
        invariant
            i <= order@.len(),
            r@.len() == i,
            order@.len() == keys@.len(),
            keys@.len() == found@.len(),
            forall|j: int| 0 <= j < order@.len() ==> #[trigger] order@[j] < keys@.len(),
            forall|j: int| 0 <= j < i ==> #[trigger] r@[j] == found@[order@[j] as int],
        decreases order@.len() - i,
    {
        r.push(found[order[i]]);
        i = i + 1;
    }
    proof {
        let o = in_rank(place_ranks(v@, f), f.len() as int);
        assert(indices(order@) == o);
        assert forall|j: int| 0 <= j < r@.len() implies #[trigger] indices(r@)[j] == places(
            v@,
        )[j] by {
            assert(indices(order@)[j] == order@[j]);
            assert(r@[j] == found@[order@[j] as int]);
            assert(indices(found@)[order@[j] as int] == found@[order@[j] as int]);
        }
        assert(indices(r@) =~= places(v@));
    }
    r
}

} // verus!
