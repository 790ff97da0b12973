//! Deciding whether something is worth interrupting a person for, and what to say if it is.
//!
//! A notification is for something you did not ask for and cannot see. What is on screen is the
//! caller's to know; this decides whether a thing is worth saying at all, whether it has been said
//! already, and how a burst of them becomes one.

use crate::text::{decimal, decimal_of, same_text, texts};
use vstd::prelude::*;

pub mod memory;
pub mod quoting;
pub mod sounding;

use crate::notify::memory::{
    entry_at, lemma_memory_push, lemma_memory_size, lemma_memory_update, memory, sweep, unique,
    Entry,
};

verus! {

/// How bad a thing is.
#[derive(Debug, Clone, Copy, PartialEq, Eq, Hash, Structural)]
pub enum MessageLevel {
    Info,
    Warn,
    Error,
}

/// Which conversation.
#[derive(Debug, Clone, PartialEq, Eq, Hash)]
pub struct SessionId(pub String);

/// What kind of event earned an alert, so the user can turn each of them off by name.
#[derive(Debug, Clone, Copy, PartialEq, Eq, Hash, Structural)]
pub enum AlertReason {
    /// A turn finished in a conversation you were not watching.
    TurnDone,
    /// An agent asked you a question and is blocked on the answer.
    Question,
    /// A tool wants permission and is blocked on the answer.
    Permission,
    /// A turn ended on an error, a refusal or a driver failure.
    Failure,
    /// A plan limit went critical.
    Quota,
    /// A plugin raised one itself.
    Plugin,
}

impl AlertReason {
    /// The name this is switched off by.
    pub open spec fn name(self) -> Seq<char> {
        match self {
            AlertReason::TurnDone => "turn.done"@,
            AlertReason::Question => "question"@,
            AlertReason::Permission => "permission"@,
            AlertReason::Failure => "failure"@,
            AlertReason::Quota => "quota"@,
            AlertReason::Plugin => "plugin"@,
        }
    }

    /// The name this is switched off by in `notify.when`.
    pub fn key(self) -> (r: &'static str)
        ensures
            r@ == self.name(),
    {
        match self {
            AlertReason::TurnDone => "turn.done",
            AlertReason::Question => "question",
            AlertReason::Permission => "permission",
            AlertReason::Failure => "failure",
            AlertReason::Quota => "quota",
            AlertReason::Plugin => "plugin",
        }
    }

    /// Every reason there is.
    pub fn all() -> (r: [AlertReason; 6])
        ensures
            r@ == seq![
                AlertReason::TurnDone,
                AlertReason::Question,
                AlertReason::Permission,
                AlertReason::Failure,
                AlertReason::Quota,
                AlertReason::Plugin,
            ],
    {
        let r = [
            AlertReason::TurnDone,
            AlertReason::Question,
            AlertReason::Permission,
            AlertReason::Failure,
            AlertReason::Quota,
            AlertReason::Plugin,
        ];
        assert(r@ =~= seq![
            AlertReason::TurnDone,
            AlertReason::Question,
            AlertReason::Permission,
            AlertReason::Failure,
            AlertReason::Quota,
            AlertReason::Plugin,
        ]);
        r
    }
}

/// No reason is left out of the list, and no two share a name.
pub proof fn every_reason_has_a_name_of_its_own(a: AlertReason, b: AlertReason)
    ensures
        seq![
            AlertReason::TurnDone,
            AlertReason::Question,
            AlertReason::Permission,
            AlertReason::Failure,
            AlertReason::Quota,
            AlertReason::Plugin,
        ].contains(a),
        a.name() == b.name() ==> a == b,
{
    let all = seq![
        AlertReason::TurnDone,
        AlertReason::Question,
        AlertReason::Permission,
        AlertReason::Failure,
        AlertReason::Quota,
        AlertReason::Plugin,
    ];
    assert(all[0] == AlertReason::TurnDone && all[1] == AlertReason::Question && all[2]
        == AlertReason::Permission && all[3] == AlertReason::Failure && all[4]
        == AlertReason::Quota && all[5] == AlertReason::Plugin);
    reveal_strlit("turn.done");
    reveal_strlit("question");
    reveal_strlit("permission");
    reveal_strlit("failure");
    reveal_strlit("quota");
    reveal_strlit("plugin");
    assert("turn.done"@.len() == 9 && "question"@.len() == 8 && "permission"@.len() == 10
        && "failure"@.len() == 7 && "quota"@.len() == 5 && "plugin"@.len() == 6);
}

/// When the workspace may raise something outside the terminal.
#[derive(Debug, Clone, Copy, PartialEq, Eq, Structural)]
pub enum AwayPolicy {
    /// Only when no attached terminal has focus.
    Focus,
    /// Whenever the thing is not the conversation on screen, focused or not.
    Offscreen,
    /// Never.
    Never,
}

impl Default for AwayPolicy {
    fn default() -> (r: Self)
        ensures
            r == AwayPolicy::Focus,
    {
        AwayPolicy::Focus
    }
}

impl AwayPolicy {
    /// What a name in the configuration means.
    pub open spec fn named(s: Seq<char>) -> Option<AwayPolicy> {
        if s == "focus"@ {
            Some(AwayPolicy::Focus)
        } else if s == "offscreen"@ {
            Some(AwayPolicy::Offscreen)
        } else if s == "never"@ || s == "off"@ {
            Some(AwayPolicy::Never)
        } else {
            None
        }
    }

    pub fn parse(s: &str) -> (r: Option<Self>)
        ensures
            r == AwayPolicy::named(s@),
    {
        if same_text(s, "focus") {
            Some(AwayPolicy::Focus)
        } else if same_text(s, "offscreen") {
            Some(AwayPolicy::Offscreen)
        } else if same_text(s, "never") || same_text(s, "off") {
            Some(AwayPolicy::Never)
        } else {
            None
        }
    }
}

/// When to shell out to the platform's own notifications.
#[derive(Debug, Clone, Copy, PartialEq, Eq, Structural)]
pub enum DesktopPolicy {
    /// Only when nothing is attached, because then there is no terminal to write an escape to.
    WhenDetached,
    /// Every time.
    Always,
    Never,
}

impl Default for DesktopPolicy {
    fn default() -> (r: Self)
        ensures
            r == DesktopPolicy::WhenDetached,
    {
        DesktopPolicy::WhenDetached
    }
}

impl DesktopPolicy {
    /// What a name in the configuration means.
    pub open spec fn named(s: Seq<char>) -> Option<DesktopPolicy> {
        if s == "when-detached"@ || s == "when_detached"@ {
            Some(DesktopPolicy::WhenDetached)
        } else if s == "always"@ {
            Some(DesktopPolicy::Always)
        } else if s == "never"@ || s == "off"@ {
            Some(DesktopPolicy::Never)
        } else {
            None
        }
    }

    pub fn parse(s: &str) -> (r: Option<Self>)
        ensures
            r == DesktopPolicy::named(s@),
    {
        if same_text(s, "when-detached") || same_text(s, "when_detached") {
            Some(DesktopPolicy::WhenDetached)
        } else if same_text(s, "always") {
            Some(DesktopPolicy::Always)
        } else if same_text(s, "never") || same_text(s, "off") {
            Some(DesktopPolicy::Never)
        } else {
            None
        }
    }
}

/// A second, in the nanoseconds that every span of time here is counted in.
pub const SECOND: u64 = 1_000_000_000;

/// How long a burst is gathered before it goes out as one.
///
/// Three conversations finishing while you are at lunch is one notification that says three. Long
/// enough to catch a genuine burst, short enough that a single event does not feel delayed.
pub const BURST: u64 = 1_500_000_000;

/// How long one conversation-and-reason stays spent.
///
/// Long enough that a driver double-reporting an ending is one notification, short enough that the
/// next real turn in the same conversation is not swallowed.
pub const REPEAT_AFTER: u64 = 20_000_000_000;

/// How many things are remembered before the stale ones are let go.
pub const REMEMBERED: usize = 256;

/// Everything `[notify]` can say. Spans of time are in nanoseconds.
#[derive(Debug, Clone)]
pub struct NotifyConfig {
    pub enabled: bool,
    pub when: Vec<String>,
    pub away: AwayPolicy,
    pub desktop: DesktopPolicy,
    /// How long without a keystroke counts as away, on a terminal that cannot report focus.
    pub idle_after: u64,
    /// The shortest turn worth mentioning.
    pub min_turn: u64,
    pub bell: bool,
}

impl NotifyConfig {
    /// Whether this kind of event is one the user asked to hear about.
    pub open spec fn wants(self, reason: AlertReason) -> bool {
        self.enabled && texts(self.when@).contains(reason.name())
    }
}

impl Default for NotifyConfig {
    fn default() -> (r: Self)
        ensures
            r.enabled,
            texts(r.when@) == seq![
                AlertReason::TurnDone.name(),
                AlertReason::Question.name(),
                AlertReason::Permission.name(),
                AlertReason::Failure.name(),
                AlertReason::Quota.name(),
                AlertReason::Plugin.name(),
            ],
            r.away == AwayPolicy::Focus,
            r.desktop == DesktopPolicy::WhenDetached,
            r.idle_after == 60 * SECOND,
            r.min_turn == 10 * SECOND,
            !r.bell,
    {
        let all = AlertReason::all();
        let mut names: Vec<String> = Vec::new();
        let mut i: usize = 0;
        while i < 6
            invariant
                i <= 6,
                all@ == seq![
                    AlertReason::TurnDone,
                    AlertReason::Question,
                    AlertReason::Permission,
                    AlertReason::Failure,
                    AlertReason::Quota,
                    AlertReason::Plugin,
                ],
                names@.len() == i,
                forall|j: int| 0 <= j < i ==> (#[trigger] names@[j])@ == all@[j].name(),
            decreases 6 - i,
        {
            names.push(all[i].key().to_owned());
            i = i + 1;
        }
        assert(texts(names@) =~= seq![
            AlertReason::TurnDone.name(),
            AlertReason::Question.name(),
            AlertReason::Permission.name(),
            AlertReason::Failure.name(),
            AlertReason::Quota.name(),
            AlertReason::Plugin.name(),
        ]);
        NotifyConfig {
            enabled: true,
            when: names,
            away: AwayPolicy::default(),
            desktop: DesktopPolicy::default(),
            idle_after: 60 * SECOND,
            min_turn: 10 * SECOND,
            bell: false,
        }
    }
}

/// One thing worth telling somebody about.
#[derive(Debug, Clone, PartialEq)]
pub struct Alert {
    pub title: String,
    pub body: String,
    pub level: MessageLevel,
}

/// How loud a level is.
pub open spec fn loudness(l: MessageLevel) -> int {
    match l {
        MessageLevel::Error => 2,
        MessageLevel::Warn => 1,
        MessageLevel::Info => 0,
    }
}

/// The louder of two levels.
pub open spec fn louder(a: MessageLevel, b: MessageLevel) -> MessageLevel {
    if loudness(a) > loudness(b) {
        a
    } else {
        b
    }
}

/// The loudest level among some alerts.
pub open spec fn loudest(alerts: Seq<Alert>) -> MessageLevel
    decreases alerts.len(),
{
    if alerts.len() == 0 {
        MessageLevel::Info
    } else {
        louder(loudest(alerts.drop_last()), alerts.last().level)
    }
}

/// Whether `r` is what some alerts come to as the one notification a person reads. One stays
/// exactly as it was. More than one become the first of them, how many more there are, and the
/// loudest level.
pub open spec fn is_collapse(alerts: Seq<Alert>, r: Option<Alert>) -> bool {
    if alerts.len() == 0 {
        r is None
    } else if alerts.len() == 1 {
        r == Some(alerts[0])
    } else {
        &&& r is Some
        &&& r->0.title == alerts[0].title
        &&& r->0.body@ == alerts[0].body@ + " \u{2014} and "@ + decimal((alerts.len() - 1) as nat)
            + " more"@
        &&& r->0.level == loudest(alerts)
    }
}

fn louder_of(a: MessageLevel, b: MessageLevel) -> (r: MessageLevel)
    ensures
        r == louder(a, b),
{
    match (a, b) {
        (MessageLevel::Error, MessageLevel::Error) => b,
        (MessageLevel::Error, _) => a,
        (MessageLevel::Warn, MessageLevel::Info) => a,
        _ => b,
    }
}

/// Several alerts into the one notification a person actually reads.
///
/// One stays exactly as it was: the common case must not be made worse by the burst machinery
/// existing. More than one becomes a count and the most severe level, because a list of five titles
/// in a desktop notification is a list nobody finishes.
pub fn collapse(alerts: Vec<Alert>) -> (r: Option<Alert>)
    ensures
        is_collapse(alerts@, r),
{
    let ghost given = alerts@;
    let mut alerts = alerts;
    let n = alerts.len();
    if n == 0 {
        return None;
    }
    if n == 1 {
        return alerts.pop();
    }
    let mut level = MessageLevel::Info;
    let mut i: usize = 0;
    assert(given.take(0) =~= seq![]);
    while i < n
        invariant
            i <= n,
            n == alerts@.len(),
            given == alerts@,
            level == loudest(given.take(i as int)),
        decreases n - i,
    {
        proof {
            assert(given.take(i + 1).drop_last() =~= given.take(i as int));
        }
        level = louder_of(level, alerts[i].level);
        i = i + 1;
    }
    assert(given.take(i as int) =~= given);
    // The first is named and the rest are counted: a count with no name is a notification you have
    // to open the workspace to act on.
    let first = alerts.remove(0);
    let mut body = first.body.clone();
    body.push_str(" \u{2014} and ");
    body.push_str(decimal_of((n - 1) as u64).as_str());
    body.push_str(" more");
    Some(Alert { title: first.title, body, level })
}

/// What a conversation was alerted about.
pub type Topic = (Seq<char>, AlertReason);

/// Everything a notifier knows. Times are in nanoseconds since it was made.
pub struct NotifierState {
    pub cfg: NotifyConfig,
    /// Alerts gathered but not yet sent.
    pub pending: Seq<Alert>,
    /// When the first of them arrived.
    pub since: Option<u64>,
    /// When each conversation was last alerted for each reason.
    pub said: Map<Topic, u64>,
}

/// Whether a burst has a beginning exactly where something is waiting.
pub open spec fn is_gathering(s: NotifierState) -> bool {
    (s.since is Some) == (s.pending.len() > 0)
}

/// Whether something said at `at` is still spent at `now`.
pub open spec fn is_fresh(at: u64, now: u64) -> bool {
    now - at < REPEAT_AFTER
}

/// What is remembered once a topic has been said at `now`: the topic with it, and past a certain
/// size nothing stale beside it.
pub open spec fn remembered(said: Map<Topic, u64>, topic: Topic, now: u64) -> Map<Topic, u64> {
    let more = said.insert(topic, now);
    if more.dom().len() > REMEMBERED {
        more.restrict(more.dom().filter(|t: Topic| is_fresh(more[t], now)))
    } else {
        more
    }
}

/// Whether an alert is taken at `now`: it is wanted, and its topic is not spent.
pub open spec fn taken(
    s: NotifierState,
    reason: AlertReason,
    session: Option<Seq<char>>,
    now: u64,
) -> bool {
    &&& s.cfg.wants(reason)
    &&& session is Some ==> !(s.said.contains_key((session->0, reason)) && is_fresh(
        s.said[(session->0, reason)],
        now,
    ))
}

/// A notifier that has been offered an alert at `now`.
pub open spec fn offered(
    s: NotifierState,
    reason: AlertReason,
    session: Option<Seq<char>>,
    alert: Alert,
    now: u64,
) -> NotifierState {
    if taken(s, reason, session, now) {
        NotifierState {
            cfg: s.cfg,
            pending: s.pending.push(alert),
            since: if s.since is Some {
                s.since
            } else {
                Some(now)
            },
            said: match session {
                Some(t) => remembered(s.said, (t, reason), now),
                None => s.said,
            },
        }
    } else {
        s
    }
}

/// How long the gathered burst still has to wait at `now`.
pub open spec fn wait_at(s: NotifierState, now: u64) -> Option<u64> {
    match s.since {
        Some(since) => Some(
            if now <= since {
                BURST
            } else if now - since < BURST {
                (BURST - (now - since)) as u64
            } else {
                0
            },
        ),
        None => None,
    }
}

/// A notifier that has sent what it gathered.
pub open spec fn emptied(s: NotifierState) -> NotifierState {
    NotifierState { pending: seq![], since: None, ..s }
}

/// Whether the gathered burst has waited long enough at `now`.
pub open spec fn is_due(s: NotifierState, now: u64) -> bool {
    s.since is Some && now - s.since->0 >= BURST
}

/// The texts of a session's name, where there is one.
pub open spec fn session_name(s: Option<&SessionId>) -> Option<Seq<char>> {
    match s {
        Some(id) => Some(id.0@),
        None => None,
    }
}

/// A point in time, of which only distances are ever read.
#[verifier::external_type_specification]
#[verifier::external_body]
pub struct ExInstant(std::time::Instant);

/// `std::time::Instant::now`. Nothing is said of which moment that is.
#[verifier::external_body]
fn moment() -> (r: std::time::Instant) {
    std::time::Instant::now()
}

/// `std::time::Instant::elapsed`, in nanoseconds. Nothing is said of how long that is.
#[verifier::external_body]
fn nanos_since(then: &std::time::Instant) -> (r: u64) {
    then.elapsed().as_nanos() as u64
}

/// The gatekeeper. Holds what has already been said, so it is not said twice.
#[derive(Debug)]
pub struct Notifier {
    cfg: NotifyConfig,
    pending: Vec<Alert>,
    since: Option<u64>,
    said: Vec<Entry>,
    made: std::time::Instant,
}

impl View for Notifier {
    type V = NotifierState;

    closed spec fn view(&self) -> NotifierState {
        NotifierState {
            cfg: self.cfg,
            pending: self.pending@,
            since: self.since,
            said: memory(self.said@),
        }
    }
}

impl Notifier {
    /// Nothing is remembered twice.
    pub closed spec fn remembers_once(self) -> bool {
        unique(self.said@)
    }

    /// Nothing is remembered twice, and a burst has a beginning exactly where something is waiting.
    pub open spec fn wf(self) -> bool {
        self.remembers_once() && is_gathering(self@)
    }

    pub fn new(cfg: NotifyConfig) -> (r: Self)
        ensures
            r.wf(),
            r@ == (NotifierState { cfg, pending: seq![], since: None, said: Map::empty() }),
    {
        let r = Notifier {
            cfg,
            pending: Vec::new(),
            since: None,
            said: Vec::new(),
            made: moment(),
        };
        assert(r.pending@ =~= seq![]);
        r
    }

    pub fn configure(&mut self, cfg: NotifyConfig)
        requires
            old(self).wf(),
        ensures
            final(self).wf(),
            final(self)@ == (NotifierState { cfg, ..old(self)@ }),
    {
        self.cfg = cfg;
    }

    pub fn config(&self) -> (r: &NotifyConfig)
        ensures
            *r == self@.cfg,
    {
        &self.cfg
    }

    /// Whether this kind of event is one the user asked to hear about.
    pub fn wants(&self, reason: AlertReason) -> (r: bool)
        ensures
            r == self@.cfg.wants(reason),
    {
        if !self.cfg.enabled {
            return false;
        }
        let key = reason.key();
        let ghost ws = texts(self.cfg.when@);
        let mut i: usize = 0;
        while i < self.cfg.when.len()
            invariant
                i <= self.cfg.when@.len(),
                ws == texts(self.cfg.when@),
                key@ == reason.name(),
                forall|j: int| 0 <= j < i ==> #[trigger] ws[j] != reason.name(),
                self.cfg.enabled,
            decreases self.cfg.when@.len() - i,
        {
            assert(ws[i as int] == self.cfg.when@[i as int]@);
            if same_text(self.cfg.when[i].as_str(), key) {
                return true;
            }
            i = i + 1;
        }
        false
    }

    /// Offer an alert. `false` if it was dropped: switched off, or already said.
    ///
    /// Nothing here decides *whether the user can see it*; that is the caller's, because only the
    /// host knows which conversation is on screen. This decides whether it is worth saying at all
    /// and whether it has been said already.
    pub fn offer(&mut self, reason: AlertReason, session: Option<&SessionId>, alert: Alert) -> (r:
        bool)
        requires
            old(self).wf(),
        ensures
            final(self).wf(),
            exists|now: u64|
                #![trigger offered(old(self)@, reason, session_name(session), alert, now)]
                r == taken(old(self)@, reason, session_name(session), now) && final(self)@
                    == offered(old(self)@, reason, session_name(session), alert, now),
    {
        let now = nanos_since(&self.made);
        self.offer_at(reason, session, alert, now)
    }

    /// Offer an alert at a given time.
    pub fn offer_at(
        &mut self,
        reason: AlertReason,
        session: Option<&SessionId>,
        alert: Alert,
        now: u64,
    ) -> (r: bool)
        requires
            old(self).wf(),
        ensures
            final(self).wf(),
            r == taken(old(self)@, reason, session_name(session), now),
            final(self)@ == offered(old(self)@, reason, session_name(session), alert, now),
    {
        if !self.wants(reason) {
            return false;
        }
        if let Some(s) = session {
            let ghost topic = (s.0@, reason);
            let ghost before = memory(self.said@);
            match entry_at(&self.said, s.0.as_str(), reason) {
                Some(i) => {
                    let at = self.said[i].at;
                    if now <= at || now - at < REPEAT_AFTER {
                        return false;
                    }
                    let ghost was = self.said@;
                    let name = self.said[i].session.clone();
                    self.said.set(i, Entry { session: name, reason, at: now });
                    proof {
                        lemma_memory_update(was, i as int, self.said@[i as int]);
                    }
                },
                None => {
                    let ghost was = self.said@;
                    self.said.push(Entry { session: s.0.clone(), reason, at: now });
                    proof {
                        lemma_memory_push(was, self.said@.last());
                        assert(self.said@ =~= was.push(self.said@.last()));
                    }
                },
            }
            assert(memory(self.said@) == before.insert(topic, now));
            proof {
                lemma_memory_size(self.said@);
            }
            // Bounded without a sweep task: there is one entry per conversation per reason, and a
            // workspace with enough conversations to matter is one where most are long stale.
            if self.said.len() > REMEMBERED {
                sweep(&mut self.said, now);
            }
        }
        if self.since.is_none() {
            self.since = Some(now);
        }
        self.pending.push(alert);
        true
    }

    /// When the gathered burst is due, if anything is waiting.
    pub fn due_in(&self) -> (r: Option<u64>)
        ensures
            r is Some == self@.since is Some,
            exists|now: u64| r == #[trigger] wait_at(self@, now),
    {
        let now = nanos_since(&self.made);
        self.due_in_at(now)
    }

    /// When the gathered burst is due, as of a given time.
    pub fn due_in_at(&self, now: u64) -> (r: Option<u64>)
        ensures
            r == wait_at(self@, now),
    {
        match self.since {
            None => None,
            Some(since) => Some(
                if now <= since {
                    BURST
                } else {
                    BURST.saturating_sub(now - since)
                },
            ),
        }
    }

    /// Take the burst, if it has gathered long enough. Several become one.
    pub fn take_due(&mut self) -> (r: Option<Alert>)
        requires
            old(self).wf(),
        ensures
            final(self).wf(),
            exists|now: u64|
                if #[trigger] is_due(old(self)@, now) {
                    is_collapse(old(self)@.pending, r) && final(self)@ == emptied(old(self)@)
                } else {
                    r is None && final(self)@ == old(self)@
                },
    {
        let now = nanos_since(&self.made);
        let ghost s = self@;
        let r = self.take_due_at(now);
        assert(if is_due(s, now) {
            is_collapse(s.pending, r) && self@ == emptied(s)
        } else {
            r is None && self@ == s
        });
        r
    }

    /// Take the burst, if by a given time it has gathered long enough.
    pub fn take_due_at(&mut self, now: u64) -> (r: Option<Alert>)
        requires
            old(self).wf(),
        ensures
            final(self).wf(),
            if is_due(old(self)@, now) {
                is_collapse(old(self)@.pending, r) && final(self)@ == emptied(old(self)@)
            } else {
                r is None && final(self)@ == old(self)@
            },
    {
        match self.since {
            None => None,
            Some(since) => if now <= since || now - since < BURST {
                None
            } else {
                self.flush()
            },
        }
    }

    /// Send what is waiting right now, whether the burst window has closed or not.
    ///
    /// For shutdown, where waiting another second means never.
    pub fn flush(&mut self) -> (r: Option<Alert>)
        requires
            old(self).wf(),
        ensures
            final(self).wf(),
            is_collapse(old(self)@.pending, r),
            final(self)@ == emptied(old(self)@),
    {
        self.since = None;
        let mut pending: Vec<Alert> = Vec::new();
        pending.append(&mut self.pending);
        assert(pending@ =~= old(self)@.pending);
        assert(self.pending@ =~= seq![]);
        collapse(pending)
    }
}

/// One turn is one notification, however many times it ends: what has been said is not taken a
/// second time while it is spent.
pub proof fn nothing_is_said_twice(
    s: NotifierState,
    reason: AlertReason,
    session: Seq<char>,
    first: Alert,
    now: u64,
    later: u64,
)
    requires
        taken(s, reason, Some(session), now),
        later - now < REPEAT_AFTER,
        now <= later,
    ensures
        !taken(offered(s, reason, Some(session), first, now), reason, Some(session), later),
{
    let topic = (session, reason);
    let more = s.said.insert(topic, now);
    let kept = remembered(s.said, topic, now);
    assert(more[topic] == now);
    assert(is_fresh(now, now));
    assert(kept.contains_key(topic) && kept[topic] == now);
}

/// One thing that can happen to a notifier.
pub enum Happening {
    /// It was offered an alert.
    Offered { reason: AlertReason, session: Option<Seq<char>>, alert: Alert, now: u64 },
    /// It was configured anew.
    Configured(NotifyConfig),
    /// What it had gathered was sent.
    Sent,
}

/// A notifier after some things have happened to it.
pub open spec fn after(s: NotifierState, past: Seq<Happening>) -> NotifierState
    decreases past.len(),
{
    if past.len() == 0 {
        s
    } else {
        let before = after(s, past.drop_last());
        match past.last() {
            Happening::Offered { reason, session, alert, now } => offered(
                before,
                reason,
                session,
                alert,
                now,
            ),
            Happening::Configured(cfg) => NotifierState { cfg, ..before },
            Happening::Sent => emptied(before),
        }
    }
}

/// The time of the last offer.
pub open spec fn latest(past: Seq<Happening>) -> u64
    decreases past.len(),
{
    if past.len() == 0 {
        0
    } else {
        match past.last() {
            Happening::Offered { now, .. } => now,
            _ => latest(past.drop_last()),
        }
    }
}

/// Whether time never runs backwards from one offer to the next.
pub open spec fn in_order(past: Seq<Happening>) -> bool
    decreases past.len(),
{
    past.len() == 0 || (in_order(past.drop_last()) && latest(past.drop_last()) <= latest(past))
}

/// When an alert on a topic was last taken.
pub open spec fn last_taken(s: NotifierState, past: Seq<Happening>, topic: Topic) -> Option<u64>
    decreases past.len(),
{
    if past.len() == 0 {
        None
    } else {
        let earlier = last_taken(s, past.drop_last(), topic);
        match past.last() {
            Happening::Offered { reason, session, alert, now } => if session == Some(topic.0)
                && reason == topic.1 && taken(after(s, past.drop_last()), reason, session, now) {
                Some(now)
            } else {
                earlier
            },
            _ => earlier,
        }
    }
}

proof fn lemma_memory_is_history(s: NotifierState, past: Seq<Happening>, topic: Topic)
    requires
        s.said == Map::<Topic, u64>::empty(),
        in_order(past),
    ensures
        ({
            let said = after(s, past).said;
            let last = last_taken(s, past, topic);
            &&& last is Some ==> last->0 <= latest(past)
            &&& if said.contains_key(topic) {
                last == Some(said[topic])
            } else {
                last is None || !is_fresh(last->0, latest(past))
            }
        }),
    decreases past.len(),
{
    if past.len() > 0 {
        lemma_memory_is_history(s, past.drop_last(), topic);
        let before = after(s, past.drop_last());
        match past.last() {
            Happening::Offered { reason, session, alert, now } => {
                if session is Some && taken(before, reason, session, now) {
                    let t = (session->0, reason);
                    let more = before.said.insert(t, now);
                    let said = remembered(before.said, t, now);
                    assert(after(s, past).said == said);
                    assert(more.contains_key(topic) == (before.said.contains_key(topic) || t
                        == topic));
                    assert(is_fresh(now, now));
                    if more.contains_key(topic) {
                        assert(more[topic] == (if t == topic {
                            now
                        } else {
                            before.said[topic]
                        }));
                        assert(said.contains_key(topic) || !is_fresh(more[topic], now));
                    }
                }
            },
            _ => {},
        }
    }
}

/// Over any run of offers, configurations and sendings, an alert about a conversation is refused
/// exactly where its reason is not wanted, or one for the same conversation and reason was taken
/// less than [`REPEAT_AFTER`] ago. What the notifier forgets to stay small makes no difference.
pub proof fn an_offer_is_refused_only_when_unwanted_or_said(
    s: NotifierState,
    past: Seq<Happening>,
    reason: AlertReason,
    session: Seq<char>,
    now: u64,
)
    requires
        s.said == Map::<Topic, u64>::empty(),
        in_order(past),
        latest(past) <= now,
    ensures
        taken(after(s, past), reason, Some(session), now) == (after(s, past).cfg.wants(reason)
            && !(last_taken(s, past, (session, reason)) is Some && now - last_taken(
            s,
            past,
            (session, reason),
        )->0 < REPEAT_AFTER)),
{
    lemma_memory_is_history(s, past, (session, reason));
}

/// Whatever happens to a notifier, a burst has a beginning exactly where something is waiting, so
/// nothing that was taken waits for ever.
pub proof fn whatever_waits_falls_due(s: NotifierState, past: Seq<Happening>)
    requires
        is_gathering(s),
    ensures
        is_gathering(after(s, past)),
        after(s, past).pending.len() > 0 ==> forall|now: u64|
            now >= after(s, past).since->0 + BURST ==> #[trigger] is_due(after(s, past), now),
    decreases past.len(),
{
    if past.len() > 0 {
        whatever_waits_falls_due(s, past.drop_last());
    }
}

/// A different conversation is different news, and so is a different reason in the same one.
pub proof fn other_topics_are_still_news(
    s: NotifierState,
    reason: AlertReason,
    session: Seq<char>,
    alert: Alert,
    now: u64,
    other_reason: AlertReason,
    other: Seq<char>,
    later: u64,
)
    requires
        (session, reason) != (other, other_reason),
        taken(s, other_reason, Some(other), later),
    ensures
        taken(
            offered(s, reason, Some(session), alert, now),
            other_reason,
            Some(other),
            later,
        ),
{
    let topic = (session, reason);
    let t = (other, other_reason);
    let more = s.said.insert(topic, now);
    assert(more.contains_key(t) == s.said.contains_key(t));
    if s.said.contains_key(t) {
        assert(more[t] == s.said[t]);
    }
}

/// A burst goes out no more than once: right after it is taken there is nothing due.
pub proof fn nothing_waits_after_a_burst(s: NotifierState, now: u64)
    ensures
        wait_at(emptied(s), now) is None,
        !is_due(emptied(s), now),
        is_collapse(emptied(s).pending, None),
{
}

/// A burst is due exactly when it has nothing left to wait for.
pub proof fn due_when_the_wait_is_over(s: NotifierState, now: u64)
    ensures
        is_due(s, now) == (wait_at(s, now) == Some(0u64)),
{
}

/// The level that goes out is that of some alert of the burst, and none of them is louder.
pub proof fn the_loudest_level_goes_out(alerts: Seq<Alert>)
    requires
        alerts.len() > 0,
    ensures
        exists|i: int| 0 <= i < alerts.len() && (#[trigger] alerts[i]).level == loudest(alerts),
        forall|i: int|
            0 <= i < alerts.len() ==> loudness((#[trigger] alerts[i]).level) <= loudness(
                loudest(alerts),
            ),
    decreases alerts.len(),
{
    let less = alerts.drop_last();
    let n = alerts.len() - 1;
    if less.len() > 0 {
        the_loudest_level_goes_out(less);
        let k = choose|i: int| 0 <= i < less.len() && (#[trigger] less[i]).level == loudest(less);
        assert(alerts[k] == less[k]);
        assert forall|i: int| 0 <= i < alerts.len() implies loudness((#[trigger] alerts[i]).level)
            <= loudness(loudest(alerts)) by {
            if i < n {
                assert(less[i] == alerts[i]);
            }
        }
        assert(alerts[n].level == alerts.last().level);
    } else {
        assert(loudest(less) == MessageLevel::Info);
        assert(alerts[0] == alerts.last());
    }
}

} // verus!
