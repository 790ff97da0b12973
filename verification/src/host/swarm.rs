//! Other machines: which are dialled, what they may ask of this one, and who waits for an answer.

use crate::host::calls::{quoted, quoted_of, ApiError, Fault, Given, Refusal};
use crate::notify::MessageLevel;
use crate::text::{decimal, decimal_of, digit, same_text};
use crate::words::concat;
use vstd::prelude::*;

verus! {

// ---- starting ---------------------------------------------------------------

/// A machine the configuration names.
#[derive(Debug)]
pub struct ConfigPeer {
    pub addr: String,
    /// Its key. Without one it is an address, and nothing more.
    pub id: Option<String>,
    pub name: Option<String>,
}

/// A machine that was paired with before.
#[derive(Debug)]
pub struct RememberedPeer {
    pub id: String,
    pub addr: Option<String>,
}

/// Somewhere to dial, and who is expected there.
#[derive(Debug)]
pub struct PeerAddress {
    pub addr: String,
    pub expect: Option<String>,
}

/// A machine the configuration lets in.
#[derive(Debug)]
pub struct AllowedPeer {
    pub id: String,
    pub name: String,
    pub addr: String,
}

/// What is asked of a node.
#[derive(Debug)]
pub struct SwarmConfig {
    pub peers: Vec<ConfigPeer>,
    /// An address to listen at was given.
    pub listens: bool,
    pub name: Option<String>,
    pub heartbeat_secs: u64,
    /// Whether another machine may say what is done here.
    pub accepts_commands: bool,
    /// Whether another machine may allow what is asked for here.
    pub accepts_approvals: bool,
}

/// What starting a node needs from outside.
#[derive(Debug)]
pub struct Around {
    /// There is somewhere to keep a key.
    pub has_state: bool,
    /// What went wrong with the key.
    pub identity: Option<String>,
    /// What is wrong with the address to listen at.
    pub listen: Option<String>,
    /// What this machine is called when nobody has said.
    pub name: String,
    /// This machine's key, as short as it is shown.
    pub id: String,
}

/// A node as it is started.
#[derive(Debug)]
pub struct Node {
    pub dial: Vec<PeerAddress>,
    pub allow: Vec<AllowedPeer>,
    /// Whether it listens.
    pub listen: bool,
    pub name: String,
    pub heartbeat_secs: u64,
    pub accepts_commands: bool,
    pub accepts_approvals: bool,
    pub said: Vec<(MessageLevel, String)>,
}

/// What becomes of starting a node.
#[derive(Debug)]
pub enum Start {
    /// Nobody asked for one. A workspace must not open a port because it was upgraded.
    No,
    /// It cannot start, and this is said. That is a feature that is unavailable, not a reason to
    /// refuse to run.
    Cannot(MessageLevel, String),
    Node(Node),
}

/// An address to dial, as plain values.
pub type Dial = (Seq<char>, Option<Seq<char>>);

/// The text of an optional string.
pub open spec fn text_of(s: Option<String>) -> Option<Seq<char>> {
    match s {
        Some(t) => Some(t@),
        None => None,
    }
}

pub open spec fn dial_of(p: PeerAddress) -> Dial {
    (p.addr@, text_of(p.expect))
}

pub open spec fn dials(v: Seq<PeerAddress>) -> Seq<Dial> {
    v.map_values(|p: PeerAddress| dial_of(p))
}

/// The machines that were paired with before and can be dialled.
pub open spec fn dials_remembered(v: Seq<RememberedPeer>) -> Seq<Dial>
    decreases v.len(),
{
    if v.len() == 0 {
        seq![]
    } else {
        let p = v.last();
        let rest = dials_remembered(v.drop_last());
        match p.addr {
            Some(a) => rest.push((a@, Some(p.id@))),
            None => rest,
        }
    }
}

/// The machines the configuration names, every one: an address with no key is dialled too, so that
/// the machine there shows up as somebody asking to pair.
pub open spec fn dials_named(v: Seq<ConfigPeer>) -> Seq<Dial> {
    v.map_values(|p: ConfigPeer| (p.addr@, text_of(p.id)))
}

/// A machine that is let in: its key, its name, and where it is.
pub type Let = (Seq<char>, Seq<char>, Seq<char>);

pub open spec fn lets(v: Seq<AllowedPeer>) -> Seq<Let> {
    v.map_values(|p: AllowedPeer| (p.id@, p.name@, p.addr@))
}

/// The machines the configuration lets in: those it gives a key for.
pub open spec fn let_in(v: Seq<ConfigPeer>) -> Seq<Let>
    decreases v.len(),
{
    if v.len() == 0 {
        seq![]
    } else {
        let p = v.last();
        let rest = let_in(v.drop_last());
        match p.id {
            Some(id) => rest.push(
                (
                    id@,
                    match p.name {
                        Some(n) => n@,
                        None => p.addr@,
                    },
                    p.addr@,
                ),
            ),
            None => rest,
        }
    }
}

/// Something that is said, and how loudly.
pub type Notice = (MessageLevel, Seq<char>);

pub open spec fn notices(v: Seq<(MessageLevel, String)>) -> Seq<Notice> {
    v.map_values(|m: (MessageLevel, String)| (m.0, m.1@))
}

/// What is said of the addresses that have no key.
pub open spec fn keyless(v: Seq<ConfigPeer>) -> Seq<Notice>
    decreases v.len(),
{
    if v.len() == 0 {
        seq![]
    } else {
        let p = v.last();
        let rest = keyless(v.drop_last());
        if p.id is None {
            rest.push(
                (
                    MessageLevel::Info,
                    "swarm peer "@ + p.addr@ + " has no id yet \u{2014} ^J to pair with it"@,
                ),
            )
        } else {
            rest
        }
    }
}

/// What is said of an address to listen at that is none.
pub open spec fn bad_listen(cfg: SwarmConfig, listen: Option<String>) -> Seq<Notice> {
    if cfg.listens && listen is Some {
        seq![(MessageLevel::Warn, "swarm.listen is not an address: "@ + listen->0@)]
    } else {
        seq![]
    }
}

/// Whether this is the node that is asked for.
pub open spec fn is_node(
    n: Node,
    cfg: SwarmConfig,
    around: Around,
    remembered: Seq<RememberedPeer>,
) -> bool {
    &&& dials(n.dial@) == dials_remembered(remembered) + dials_named(cfg.peers@)
    &&& lets(n.allow@) == let_in(cfg.peers@)
    &&& n.listen == (cfg.listens && around.listen is None)
    &&& n.name@ == (match cfg.name {
        Some(x) => x@,
        None => around.name@,
    })
    &&& n.heartbeat_secs == (if cfg.heartbeat_secs == 0 {
        1u64
    } else {
        cfg.heartbeat_secs
    })
    &&& n.accepts_commands == cfg.accepts_commands
    &&& n.accepts_approvals == cfg.accepts_approvals
    &&& notices(n.said@) == (keyless(cfg.peers@) + bad_listen(cfg, around.listen)).push(
        (MessageLevel::Info, "swarm: this node is "@ + around.id@),
    )
}

fn dial_remembered(remembered: &Vec<RememberedPeer>) -> (r: Vec<PeerAddress>)
    ensures
        dials(r@) == dials_remembered(remembered@),
{
    let mut r: Vec<PeerAddress> = Vec::new();
    let mut i: usize = 0;
    assert(dials(r@) =~= dials_remembered(remembered@.take(0)));
    while i < remembered.len()
        invariant
            i <= remembered@.len(),
            dials(r@) == dials_remembered(remembered@.take(i as int)),
        decreases remembered@.len() - i,
    {
        proof {
            assert(remembered@.take(i + 1).drop_last() =~= remembered@.take(i as int));
            assert(remembered@.take(i + 1).last() == remembered@[i as int]);
        }
        let ghost was = dials(r@);
        if let Some(a) = &remembered[i].addr {
            r.push(PeerAddress { addr: a.clone(), expect: Some(remembered[i].id.clone()) });
            assert(dials(r@) =~= was.push((a@, Some(remembered@[i as int].id@))));
        }
        i = i + 1;
    }
    assert(remembered@.take(i as int) =~= remembered@);
    r
}

/// Start a node, if the configuration asks for one. What pairing has remembered comes first, and
/// then what the configuration names.
pub fn start_swarm(cfg: &SwarmConfig, around: &Around, remembered: &Vec<RememberedPeer>) -> (r: Start)
    ensures
        if cfg.peers@.len() == 0 && !cfg.listens {
            r is No
        } else if !around.has_state {
            r is Cannot && r->Cannot_0 == MessageLevel::Warn && r->Cannot_1@
                == "the swarm needs somewhere to keep its key, and --clean has nowhere"@
        } else if around.identity is Some {
            r is Cannot && r->Cannot_0 == MessageLevel::Error && r->Cannot_1@
                == "swarm identity: "@ + around.identity->0@
        } else {
            r is Node && is_node(r->Node_0, *cfg, *around, remembered@)
        },
{
    if cfg.peers.len() == 0 && !cfg.listens {
        return Start::No;
    }
    if !around.has_state {
        return Start::Cannot(
            MessageLevel::Warn,
            "the swarm needs somewhere to keep its key, and --clean has nowhere".to_owned(),
        );
    }
    if let Some(e) = &around.identity {
        return Start::Cannot(MessageLevel::Error, concat("swarm identity: ", e.as_str()));
    }
    let mut dial = dial_remembered(remembered);
    let ghost first = dials(dial@);
    let mut allow: Vec<AllowedPeer> = Vec::new();
    let mut said: Vec<(MessageLevel, String)> = Vec::new();
    let mut i: usize = 0;
    proof {
        assert(cfg.peers@.take(0) =~= seq![]);
        assert(dials(dial@) =~= first + dials_named(cfg.peers@.take(0)));
        assert(lets(allow@) =~= let_in(cfg.peers@.take(0)));
        assert(notices(said@) =~= keyless(cfg.peers@.take(0)));
    }
    while i < cfg.peers.len()
        invariant
            i <= cfg.peers@.len(),
            dials(dial@) == first + dials_named(cfg.peers@.take(i as int)),
            lets(allow@) == let_in(cfg.peers@.take(i as int)),
            notices(said@) == keyless(cfg.peers@.take(i as int)),
        decreases cfg.peers@.len() - i,
    {
        let p = &cfg.peers[i];
        let ghost were = dials(dial@);
        let ghost had = lets(allow@);
        let ghost heard = notices(said@);
        proof {
            assert(cfg.peers@.take(i + 1).drop_last() =~= cfg.peers@.take(i as int));
            assert(cfg.peers@.take(i + 1).last() == *p);
            assert(first + dials_named(cfg.peers@.take(i + 1)) =~= were.push(
                (p.addr@, text_of(p.id)),
            ));
        }
        match &p.id {
            Some(id) => {
                let name = match &p.name {
                    Some(n) => n.clone(),
                    None => p.addr.clone(),
                };
                let ghost called = name@;
                allow.push(AllowedPeer { id: id.clone(), name, addr: p.addr.clone() });
                dial.push(PeerAddress { addr: p.addr.clone(), expect: Some(id.clone()) });
                assert(lets(allow@) =~= had.push((id@, called, p.addr@)));
            },
            // An address with no key is not an authorisation.
            None => {
                dial.push(PeerAddress { addr: p.addr.clone(), expect: None });
                let mut text = "swarm peer ".to_owned();
                text.push_str(p.addr.as_str());
                text.push_str(" has no id yet \u{2014} ^J to pair with it");
                let ghost t = text@;
                said.push((MessageLevel::Info, text));
                assert(notices(said@) =~= heard.push((MessageLevel::Info, t)));
            },
        }
        assert(dials(dial@) =~= were.push((p.addr@, text_of(p.id))));
        i = i + 1;
    }
    assert(cfg.peers@.take(i as int) =~= cfg.peers@);
    let ghost heard = notices(said@);
    let mut listen = cfg.listens;
    if cfg.listens {
        if let Some(e) = &around.listen {
            let text = concat("swarm.listen is not an address: ", e.as_str());
            let ghost t = text@;
            said.push((MessageLevel::Warn, text));
            listen = false;
            assert(notices(said@) =~= heard + seq![(MessageLevel::Warn, t)]);
        }
    }
    assert(notices(said@) =~= heard + bad_listen(*cfg, around.listen));
    let name = match &cfg.name {
        Some(n) => n.clone(),
        None => around.name.clone(),
    };
    let heartbeat_secs = if cfg.heartbeat_secs == 0 {
        1
    } else {
        cfg.heartbeat_secs
    };
    let ghost before = notices(said@);
    let me = concat("swarm: this node is ", around.id.as_str());
    let ghost t = me@;
    said.push((MessageLevel::Info, me));
    assert(notices(said@) =~= before.push((MessageLevel::Info, t)));
    Start::Node(
        Node {
            dial,
            allow,
            listen,
            name,
            heartbeat_secs,
            accepts_commands: cfg.accepts_commands,
            accepts_approvals: cfg.accepts_approvals,
            said,
        },
    )
}

/// An address with no key is not an authorisation: whoever the configuration lets in, it gives the
/// key of.
pub proof fn nobody_is_let_in_without_a_key(peers: Seq<ConfigPeer>, i: int)
    requires
        0 <= i < let_in(peers).len(),
    ensures
        exists|j: int|
            0 <= j < peers.len() && (#[trigger] peers[j]).id is Some && peers[j].id->0@ == let_in(
                peers,
            )[i].0,
    decreases peers.len(),
{
    let n = peers.len() - 1;
    let less = peers.drop_last();
    if peers[n].id is Some && i == let_in(peers).len() - 1 {
        assert(peers[n].id->0@ == let_in(peers)[i].0);
    } else {
        nobody_is_let_in_without_a_key(less, i);
        let j = choose|j: int|
            0 <= j < less.len() && (#[trigger] less[j]).id is Some && less[j].id->0@ == let_in(
                less,
            )[i].0;
        assert(peers[j] == less[j]);
    }
}

// ---- who waits --------------------------------------------------------------

/// Who waits for an answer.
#[derive(Debug)]
pub struct Waiting {
    pub plugin: String,
    pub request: u64,
}

/// A command that was sent, by its number, and who waits for its answer.
#[derive(Debug)]
pub struct Sent {
    pub number: u64,
    pub waiting: Waiting,
}

/// What a command is called on the wire. A counter is enough to tell one from another, and it can
/// be read.
pub open spec fn wire_name(n: nat) -> Seq<char> {
    "c"@ + decimal(n)
}

/// What a command is called on the wire.
pub fn name_on_wire(n: u64) -> (r: String)
    ensures
        r@ == wire_name(n as nat),
{
    concat("c", decimal_of(n).as_str())
}

/// Which of some commands is called `id`.
pub open spec fn sent_as(v: Seq<Sent>, id: Seq<char>) -> Option<int>
    decreases v.len(),
{
    if v.len() == 0 {
        None
    } else if wire_name(v.last().number as nat) == id {
        Some(v.len() - 1)
    } else {
        sent_as(v.drop_last(), id)
    }
}

/// A machine that asked to pair, or that was dialled and is not known.
#[derive(Debug)]
pub struct Stranger {
    pub id: String,
    pub name: String,
    pub dialled: bool,
    pub addr: Option<String>,
}

/// Which of some strangers is `id`.
pub open spec fn stranger_among(v: Seq<Stranger>, id: Seq<char>) -> Option<int>
    decreases v.len(),
{
    if v.len() == 0 {
        None
    } else if v.last().id@ == id {
        Some(v.len() - 1)
    } else {
        stranger_among(v.drop_last(), id)
    }
}

/// What this machine knows of the swarm.
#[derive(Debug)]
pub struct Swarm {
    /// What this machine is to the others, while a node is running.
    pub me: Option<String>,
    pub next: u64,
    pub pending: Vec<Sent>,
    pub strangers: Vec<Stranger>,
    /// The conversations somebody is watching from another machine.
    pub watched: Vec<String>,
}

/// What becomes of a command for another machine.
#[derive(Debug)]
pub enum Asked {
    /// It is for this machine, which is a thing to do rather than a thing to dial.
    Here(Waiting),
    /// The one who waits is told this at once.
    Answered(Waiting, ApiError),
    /// It is sent, under this name.
    Sent(String),
}

proof fn lemma_digits_differ(a: nat, b: nat)
    requires
        a < 10,
        b < 10,
        digit(a) == digit(b),
    ensures
        a == b,
{
    assert((48 + a) as u8 == 48 + a);
    assert((48 + b) as u8 == 48 + b);
}

pub proof fn lemma_decimal_once(a: nat, b: nat)
    requires
        decimal(a) == decimal(b),
    ensures
        a == b,
    decreases a,
{
    assert(decimal(a).len() >= 1 && decimal(b).len() >= 1);
    if a < 10 && b < 10 {
        assert(seq![digit(a)][0] == seq![digit(b)][0]);
        lemma_digits_differ(a, b);
    } else if a < 10 {
        assert(decimal(b / 10).len() >= 1);
        assert(decimal(b).len() >= 2);
    } else if b < 10 {
        assert(decimal(a / 10).len() >= 1);
        assert(decimal(a).len() >= 2);
    } else {
        assert(decimal(a).last() == digit(a % 10));
        assert(decimal(b).last() == digit(b % 10));
        lemma_digits_differ(a % 10, b % 10);
        assert(decimal(a).drop_last() =~= decimal(a / 10));
        assert(decimal(b).drop_last() =~= decimal(b / 10));
        lemma_decimal_once(a / 10, b / 10);
    }
}

/// No two commands have one name.
pub proof fn no_two_commands_share_a_name(a: nat, b: nat)
    requires
        wire_name(a) == wire_name(b),
    ensures
        a == b,
{
    reveal_strlit("c");
    assert(wire_name(a).skip(1) =~= decimal(a));
    assert(wire_name(b).skip(1) =~= decimal(b));
    lemma_decimal_once(a, b);
}

proof fn lemma_sent_as(v: Seq<Sent>, id: Seq<char>)
    ensures
        match sent_as(v, id) {
            Some(i) => 0 <= i < v.len() && wire_name(v[i].number as nat) == id,
            None => forall|i: int|
                0 <= i < v.len() ==> wire_name((#[trigger] v[i]).number as nat) != id,
        },
    decreases v.len(),
{
    if v.len() > 0 && wire_name(v.last().number as nat) != id {
        lemma_sent_as(v.drop_last(), id);
        if sent_as(v.drop_last(), id) is None {
            assert forall|i: int| 0 <= i < v.len() implies wire_name(
                (#[trigger] v[i]).number as nat,
            ) != id by {
                if i < v.len() - 1 {
                    assert(v.drop_last()[i] == v[i]);
                }
            }
        }
    }
}

impl Swarm {
    /// Every command that waits has a number of its own, and none is ahead of the counter.
    pub open spec fn wf(self) -> bool {
        &&& forall|i: int|
            0 <= i < self.pending@.len() ==> (#[trigger] self.pending@[i]).number <= self.next
        &&& forall|i: int, j: int|
            0 <= i < j < self.pending@.len() ==> (#[trigger] self.pending@[i]).number < (
            #[trigger] self.pending@[j]).number
    }

    pub fn new() -> (r: Swarm)
        ensures
            r.wf(),
            r.me is None,
            r.next == 0,
            r.pending@.len() == 0,
            r.strangers@.len() == 0,
            r.watched@.len() == 0,
    {
        Swarm {
            me: None,
            next: 0,
            pending: Vec::new(),
            strangers: Vec::new(),
            watched: Vec::new(),
        }
    }

    /// Send a command to a machine, and remember who is waiting for the answer.
    pub fn begin_swarm_command(&mut self, node: &str, waiting: Waiting) -> (r: Asked)
        requires
            old(self).wf(),
            old(self).next < u64::MAX,
        ensures
            final(self).wf(),
            final(self).me == old(self).me,
            final(self).strangers == old(self).strangers,
            final(self).watched == old(self).watched,
            match old(self).me {
                Some(me) if me@ == node@ => r == Asked::Here(waiting) && *final(self) == *old(self),
                None => r is Answered && r->Answered_0 == waiting && r->Answered_1@
                    == Fault::NotFound("the swarm is not running"@) && *final(self) == *old(self),
                Some(_) => {
                    &&& r is Sent
                    &&& r->Sent_0@ == wire_name((old(self).next + 1) as nat)
                    &&& final(self).next == old(self).next + 1
                    &&& final(self).pending@ == old(self).pending@.push(
                        Sent { number: (old(self).next + 1) as u64, waiting },
                    )
                },
            },
    {
        match &self.me {
            None => {
                return Asked::Answered(
                    waiting,
                    ApiError::NotFound("the swarm is not running".to_owned()),
                );
            },
            Some(me) => {
                if same_text(me.as_str(), node) {
                    return Asked::Here(waiting);
                }
            },
        }
        let ghost was = self.pending@;
        self.next = self.next + 1;
        self.pending.push(Sent { number: self.next, waiting });
        proof {
            assert forall|i: int, j: int| 0 <= i < j < self.pending@.len() implies (
            #[trigger] self.pending@[i]).number < (#[trigger] self.pending@[j]).number by {
                assert(self.pending@[i] == was[i]);
                if j < was.len() {
                    assert(self.pending@[j] == was[j]);
                }
            }
        }
        Asked::Sent(name_on_wire(self.next))
    }

    /// Settle a command that was sent, when the far end answers. One that nobody waits for is
    /// nothing.
    pub fn on_swarm_reply(&mut self, id: &str, ok: bool, message: String) -> (r: Option<
        (Waiting, Result<Given, ApiError>),
    >)
        requires
            old(self).wf(),
        ensures
            final(self).wf(),
            final(self).me == old(self).me,
            final(self).next == old(self).next,
            final(self).strangers == old(self).strangers,
            final(self).watched == old(self).watched,
            // Nobody is answered twice.
            sent_as(final(self).pending@, id@) is None,
            match sent_as(old(self).pending@, id@) {
                None => r is None && final(self).pending@ == old(self).pending@,
                Some(i) => {
                    &&& final(self).pending@ == old(self).pending@.remove(i)
                    &&& match r {
                        Some((waiting, result)) => waiting == old(self).pending@[i].waiting
                            && result_of(result) == reply_of(ok, message@),
                        None => false,
                    }
                },
            },
    {
        let ghost was = self.pending@;
        let mut i: usize = self.pending.len();
        assert(was.take(i as int) =~= was);
        while i > 0
            invariant
                i <= self.pending@.len(),
                *self == *old(self),
                was == self.pending@,
                self.wf(),
                sent_as(was, id@) == sent_as(was.take(i as int), id@),
            decreases i,
        {
            assert(was.take(i as int).drop_last() =~= was.take(i - 1));
            if same_text(name_on_wire(self.pending[i - 1].number).as_str(), id) {
                let k: usize = i - 1;
                let sent = self.pending.remove(k);
                proof {
                    let now = self.pending@;
                    assert forall|a: int, b: int| 0 <= a < b < now.len() implies (
                    #[trigger] now[a]).number < (#[trigger] now[b]).number by {
                        let x = if a < k {
                            a
                        } else {
                            a + 1
                        };
                        let y = if b < k {
                            b
                        } else {
                            b + 1
                        };
                        assert(now[a] == was[x] && now[b] == was[y]);
                    }
                    assert forall|a: int| 0 <= a < now.len() implies (#[trigger] now[a]).number
                        <= self.next by {
                        let x = if a < k {
                            a
                        } else {
                            a + 1
                        };
                        assert(now[a] == was[x]);
                    }
                    lemma_sent_as(now, id@);
                    if sent_as(now, id@) is Some {
                        let a = sent_as(now, id@)->0;
                        let x = if a < k {
                            a
                        } else {
                            a + 1
                        };
                        assert(now[a] == was[x]);
                        no_two_commands_share_a_name(
                            was[x].number as nat,
                            was[k as int].number as nat,
                        );
                    }
                }
                let result: Result<Given, ApiError> = if ok {
                    Ok(Given::Unit)
                } else {
                    Err(ApiError::Denied(message))
                };
                return Some((sent.waiting, result));
            }
            i = i - 1;
        }
        assert(was.take(0) =~= seq![]);
        None
    }
}

/// What came of asking an address who is there.
#[derive(Debug)]
pub enum Probed {
    Found,
    /// There was no key to ask with.
    NoKey(String),
    /// It took too long. The address came from somebody typing, and a wrong one is the ordinary case.
    Silent,
    Wrong(String),
}

/// What a plugin is told of an address it asked about.
pub open spec fn probe_answer(addr: Seq<char>, p: Probed) -> Result<Given, Fault> {
    match p {
        Probed::Found => Ok(Given::SwarmSelf),
        Probed::NoKey(e) => Err(Fault::Internal(e@)),
        Probed::Silent => Err(Fault::NotFound("nothing answered at "@ + addr)),
        Probed::Wrong(e) => Err(Fault::NotFound(addr + ": "@ + e@)),
    }
}

/// What a plugin is told of an address it asked about.
pub fn answer_probe(addr: &str, p: &Probed) -> (r: Result<Given, ApiError>)
    ensures
        result_of(r) == probe_answer(addr@, *p),
{
    match p {
        Probed::Found => Ok(Given::SwarmSelf),
        Probed::NoKey(e) => Err(ApiError::Internal(e.clone())),
        Probed::Silent => Err(ApiError::NotFound(concat("nothing answered at ", addr))),
        Probed::Wrong(e) => {
            let mut said = addr.to_owned();
            said.push_str(": ");
            said.push_str(e.as_str());
            Err(ApiError::NotFound(said))
        },
    }
}

impl Swarm {
    /// Why an address is not asked who is there, if it is not: there is no node to ask for, or
    /// nowhere that its key is kept.
    pub fn begin_swarm_probe(&self, has_state: bool) -> (r: Option<ApiError>)
        ensures
            match r {
                None => self.me is Some && has_state,
                Some(e) => e@ == (if self.me is None {
                    Fault::NotFound("the swarm is not running"@)
                } else {
                    Fault::NotFound("no state directory"@)
                }) && !(self.me is Some && has_state),
            },
    {
        if self.me.is_none() {
            return Some(ApiError::NotFound("the swarm is not running".to_owned()));
        }
        if !has_state {
            return Some(ApiError::NotFound("no state directory".to_owned()));
        }
        None
    }
}

/// An answer as plain values.
pub open spec fn result_of(r: Result<Given, ApiError>) -> Result<Given, Fault> {
    match r {
        Ok(g) => Ok(g),
        Err(e) => Err(e@),
    }
}

/// What the one who waits is told of what the far end answered.
pub open spec fn reply_of(ok: bool, message: Seq<char>) -> Result<Given, Fault> {
    if ok {
        Ok(Given::Unit)
    } else {
        Err(Fault::Denied(message))
    }
}

/// A refusal, in words a person can act on.
pub open spec fn refusal_said(r: Refusal) -> Seq<char> {
    match r {
        Refusal::NoSuchAgent => "that conversation is not there any more"@,
        Refusal::NotPermitted(what) => what@,
        Refusal::Busy(message) => message@,
        Refusal::Failed(message) => message@,
    }
}

/// A refusal, in words a person can act on.
pub fn refusal_text(r: &Refusal) -> (s: String)
    ensures
        s@ == refusal_said(*r),
{
    match r {
        Refusal::NoSuchAgent => "that conversation is not there any more".to_owned(),
        Refusal::NotPermitted(what) => what.clone(),
        Refusal::Busy(message) => message.clone(),
        Refusal::Failed(message) => message.clone(),
    }
}

/// A refusal as it reads in a log.
pub open spec fn refusal_logged(r: Refusal) -> Seq<char> {
    match r {
        Refusal::NoSuchAgent => "NoSuchAgent"@,
        Refusal::NotPermitted(what) => "NotPermitted { what: "@ + quoted_of(what@) + " }"@,
        Refusal::Busy(message) => "Busy { message: "@ + quoted_of(message@) + " }"@,
        Refusal::Failed(message) => "Failed { message: "@ + quoted_of(message@) + " }"@,
    }
}

fn between(lead: &str, text: &str) -> (r: String)
    ensures
        r@ == lead@ + quoted_of(text@) + " }"@,
{
    let mut r = lead.to_owned();
    r.push_str(quoted(text).as_str());
    r.push_str(" }");
    r
}

/// What a plugin is told of a command for this machine itself.
pub fn answer_here(refusal: Option<&Refusal>) -> (r: Result<Given, ApiError>)
    ensures
        result_of(r) == (match refusal {
            None => Ok(Given::Unit),
            Some(x) => Err(Fault::Denied(refusal_logged(*x))),
        }),
{
    match refusal {
        None => Ok(Given::Unit),
        Some(x) => Err(
            ApiError::Denied(
                match x {
                    Refusal::NoSuchAgent => "NoSuchAgent".to_owned(),
                    Refusal::NotPermitted(what) => between("NotPermitted { what: ", what.as_str()),
                    Refusal::Busy(message) => between("Busy { message: ", message.as_str()),
                    Refusal::Failed(message) => between("Failed { message: ", message.as_str()),
                },
            ),
        ),
    }
}

} // verus!
