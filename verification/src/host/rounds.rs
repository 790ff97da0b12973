//! Turns in flight: what each has said so far, and what the rest of the workspace does about it.
//!
//! Two jobs, and they are deliberately separate. *Bookkeeping*, what a conversation has said and
//! whether its turn is still running, happens for every event whatever is on screen. *Drawing*
//! happens only when the event came from the conversation you are looking at.

use crate::host::cards::ToolResult;
use crate::notify::SessionId;
use crate::text::{same_text, texts};
use crate::words::{join_with, joined_with};
use vstd::prelude::*;

verus! {

/// Words a turn can be doing. A word that reads as activity without claiming anything about what
/// the model is actually doing, which nobody knows.
pub const VERBS: [&'static str; 12] = [
    "Thinking",
    "Working",
    "Pondering",
    "Considering",
    "Reasoning",
    "Puzzling",
    "Weighing",
    "Mulling",
    "Deliberating",
    "Reckoning",
    "Chewing",
    "Turning it over",
];

/// The distance of a number from zero.
pub open spec fn distance(n: int) -> int {
    if n < 0 {
        -n
    } else {
        n
    }
}

/// The word a turn uses. Chosen once per turn, by the clock: a verb that changes every tick is a
/// slot machine.
pub fn verb_at(now: i64) -> (r: &'static str)
    ensures
        r == VERBS@[distance(now as int) % 12],
{
    let away: u64 = if now < 0 {
        if now == i64::MIN {
            9223372036854775808u64
        } else {
            (-now) as u64
        }
    } else {
        now as u64
    };
    let i = (away % 12) as usize;
    VERBS[i]
}

/// A tool call.
#[derive(Debug)]
pub struct ToolCall {
    pub id: String,
    pub name: String,
    pub input: String,
}

/// One thing a running turn has produced, in the order it produced it.
#[derive(Debug)]
pub enum Said {
    Text(String),
    Tool(ToolCall, Option<ToolResult>),
}

/// How a step of a plan stands.
#[derive(Debug, Clone, Copy, PartialEq, Eq, Structural)]
pub enum StepStatus {
    Pending,
    InProgress,
    Completed,
}

/// A step of the agent's own checklist.
#[derive(Debug)]
pub struct PlanStep {
    pub text: String,
    pub status: StepStatus,
}

/// How a sub-agent stands.
#[derive(Debug, Clone, Copy, PartialEq, Eq, Structural)]
pub enum TaskStatus {
    Running,
    Backgrounded,
    Completed,
    Failed,
}

/// One sub-agent, from the turn's point of view.
#[derive(Debug)]
pub struct Task {
    pub id: String,
    pub title: String,
    pub role: Option<String>,
    /// When this turn heard about it.
    pub since: u64,
    pub status: TaskStatus,
}

impl Task {
    /// Whether it belongs in the footer. Running, obviously, and backgrounded, because "something is
    /// still going that nothing is waiting for" is the one people ask about.
    pub fn listed(&self) -> (r: bool)
        ensures
            r == (self.status == TaskStatus::Running || self.status == TaskStatus::Backgrounded),
    {
        match self.status {
            TaskStatus::Running => true,
            TaskStatus::Backgrounded => true,
            _ => false,
        }
    }
}

/// What a turn is doing, and what it has said that the conversation does not hold yet.
#[derive(Debug)]
pub struct Round {
    pub verb: &'static str,
    pub started: u64,
    /// What it is waiting on, when that is something other than the model.
    pub note: Option<String>,
    pub said: Vec<Said>,
    /// The agent's own checklist, as of its last report.
    pub plan: Vec<PlanStep>,
    /// The sub-agents this turn has out, in the order they started.
    pub tasks: Vec<Task>,
    /// The calls that came back without an error, in that order: what the turn changed is what they
    /// changed.
    pub counted: Vec<ToolCall>,
}

/// Whether two plans are the same.
pub open spec fn same_plan(a: Seq<PlanStep>, b: Seq<PlanStep>) -> bool {
    a.len() == b.len() && forall|i: int|
        0 <= i < a.len() ==> (#[trigger] a[i]).text@ == b[i].text@ && a[i].status == b[i].status
}

/// Which of some sub-agents is `id`.
pub open spec fn task_among(tasks: Seq<Task>, id: Seq<char>) -> Option<int>
    decreases tasks.len(),
{
    if tasks.len() == 0 {
        None
    } else {
        match task_among(tasks.drop_last(), id) {
            Some(i) => Some(i),
            None => if tasks.last().id@ == id {
                Some(tasks.len() - 1)
            } else {
                None
            },
        }
    }
}

proof fn lemma_task_found(tasks: Seq<Task>, id: Seq<char>, n: int)
    requires
        0 <= n <= tasks.len(),
        task_among(tasks.take(n), id) is Some,
    ensures
        task_among(tasks, id) == task_among(tasks.take(n), id),
    decreases tasks.len(),
{
    if n == tasks.len() {
        assert(tasks.take(n) =~= tasks);
    } else {
        assert(tasks.drop_last().take(n) =~= tasks.take(n));
        lemma_task_found(tasks.drop_last(), id, n);
    }
}

fn find_task(tasks: &Vec<Task>, id: &str) -> (r: Option<usize>)
    ensures
        match r {
            Some(i) => i < tasks@.len() && task_among(tasks@, id@) == Some(i as int),
            None => task_among(tasks@, id@) is None,
        },
{
    let mut i: usize = 0;
    assert(tasks@.take(0) =~= seq![]);
    while i < tasks.len()
        invariant
            i <= tasks@.len(),
            task_among(tasks@.take(i as int), id@) is None,
        decreases tasks@.len() - i,
    {
        proof {
            assert(tasks@.take(i + 1).drop_last() =~= tasks@.take(i as int));
            assert(tasks@.take(i + 1).last() == tasks@[i as int]);
        }
        if same_text(tasks[i].id.as_str(), id) {
            proof {
                lemma_task_found(tasks@, id@, i + 1);
            }
            return Some(i);
        }
        i = i + 1;
    }
    assert(tasks@.take(i as int) =~= tasks@);
    None
}

/// The newest of some things said that is the call `id`.
pub open spec fn call_said(said: Seq<Said>, id: Seq<char>) -> Option<int>
    decreases said.len(),
{
    if said.len() == 0 {
        None
    } else {
        let is_it = match said.last() {
            Said::Tool(c, _) => c.id@ == id,
            Said::Text(_) => false,
        };
        if is_it {
            Some(said.len() - 1)
        } else {
            call_said(said.drop_last(), id)
        }
    }
}

impl Round {
    pub fn new(verb: &'static str, started: u64) -> (r: Round)
        ensures
            r.verb == verb,
            r.started == started,
            r.note is None,
            r.said@.len() == 0,
            r.plan@.len() == 0,
            r.tasks@.len() == 0,
            r.counted@.len() == 0,
    {
        Round {
            verb,
            started,
            note: None,
            said: Vec::new(),
            plan: Vec::new(),
            tasks: Vec::new(),
            counted: Vec::new(),
        }
    }

    /// More of the answer. It goes on the end of what is being said, and starts something new where
    /// the last thing was a call.
    pub fn heard_text(&mut self, text: &str)
        ensures
            *final(self) == (Round { said: final(self).said, ..*old(self) }),
            heard(old(self).said@, text@, final(self).said@),
    {
        let ghost before = self.said@;
        match self.said.pop() {
            Some(Said::Text(t)) => {
                let mut t = t;
                t.push_str(text);
                self.said.push(Said::Text(t));
                assert(self.said@.drop_last() =~= before.drop_last());
            },
            Some(other) => {
                self.said.push(other);
                assert(self.said@ =~= before);
                self.said.push(Said::Text(text.to_owned()));
                assert(self.said@.drop_last() =~= before);
            },
            None => {
                self.said.push(Said::Text(text.to_owned()));
                assert(self.said@.drop_last() =~= before);
            },
        }
    }

    /// A call has started, and is what the turn is doing now.
    pub fn tool_started(&mut self, call: ToolCall)
        ensures
            final(self).note is Some,
            final(self).note->0@ == "Running "@ + call.name@,
            final(self).said@ == old(self).said@.push(Said::Tool(call, None)),
            *final(self) == (Round {
                said: final(self).said,
                note: final(self).note,
                ..*old(self)
            }),
    {
        self.note = Some(crate::words::concat("Running ", call.name.as_str()));
        self.said.push(Said::Tool(call, None));
    }

    /// A call came back: its result goes with it, so that a replay draws the pair.
    pub fn tool_finished(&mut self, id: &str, result: ToolResult)
        ensures
            final(self).note is None,
            *final(self) == (Round { said: final(self).said, note: None, ..*old(self) }),
            match call_said(old(self).said@, id@) {
                Some(i) => final(self).said@ == old(self).said@.update(
                    i,
                    Said::Tool(old(self).said@[i]->Tool_0, Some(result)),
                ),
                None => final(self).said@ == old(self).said@,
            },
    {
        self.note = None;
        let ghost given = self.said@;
        let mut i: usize = self.said.len();
        assert(given.take(i as int) =~= given);
        while i > 0
            invariant
                i <= self.said@.len(),
                self.said@ == given,
                given == old(self).said@,
                call_said(given, id@) == call_said(given.take(i as int), id@),
                *self == (Round { said: self.said, note: None, ..*old(self) }),
            decreases i,
        {
            assert(given.take(i as int).drop_last() =~= given.take(i - 1));
            assert(given.take(i as int).last() == given[i - 1]);
            let found = match &self.said[i - 1] {
                Said::Tool(c, _) => same_text(c.id.as_str(), id),
                Said::Text(_) => false,
            };
            if found {
                let was = self.said.remove(i - 1);
                if let Said::Tool(c, _) = was {
                    self.said.insert(i - 1, Said::Tool(c, Some(result)));
                }
                assert(self.said@ =~= given.update(
                    i - 1,
                    Said::Tool(given[i - 1]->Tool_0, Some(result)),
                ));
                return;
            }
            i = i - 1;
        }
    }

    /// What a call changed counts for the summary of its turn.
    pub fn count(&mut self, call: ToolCall)
        ensures
            final(self).counted@ == old(self).counted@.push(call),
            *final(self) == (Round { counted: final(self).counted, ..*old(self) }),
    {
        self.counted.push(call);
    }

    /// The conversation holds what the turn produced now, and a second copy would only go stale.
    pub fn committed(&mut self)
        ensures
            final(self).said@.len() == 0,
            *final(self) == (Round { said: final(self).said, ..*old(self) }),
    {
        self.said.clear();
    }

    /// The agent's checklist, and whether it is another one.
    pub fn set_plan(&mut self, steps: Vec<PlanStep>) -> (r: bool)
        ensures
            r == !same_plan(old(self).plan@, steps@),
            *final(self) == (if r {
                Round { plan: steps, ..*old(self) }
            } else {
                *old(self)
            }),
    {
        let mut same = self.plan.len() == steps.len();
        let mut i: usize = 0;
        while same && i < steps.len()
            invariant
                i <= steps@.len(),
                *self == *old(self),
                same ==> self.plan@.len() == steps@.len(),
                same ==> forall|j: int|
                    0 <= j < i ==> (#[trigger] self.plan@[j]).text@ == steps@[j].text@
                        && self.plan@[j].status == steps@[j].status,
                !same ==> !same_plan(self.plan@, steps@),
            decreases steps@.len() - i + (if same { 1int } else { 0 }),
        {
            if same_text(self.plan[i].text.as_str(), steps[i].text.as_str()) && self.plan[i].status
                == steps[i].status {
                i = i + 1;
            } else {
                same = false;
            }
        }
        if same {
            return false;
        }
        self.plan = steps;
        true
    }

    /// A sub-agent has started. Announced twice on purpose, so a second telling fills in what the
    /// first could not say.
    pub fn task_started(&mut self, id: String, title: String, role: Option<String>, now: u64)
        ensures
            *final(self) == (Round { tasks: final(self).tasks, ..*old(self) }),
            match task_among(old(self).tasks@, id@) {
                Some(i) => final(self).tasks@ == old(self).tasks@.update(
                    i,
                    Task {
                        title,
                        role: if role is Some {
                            role
                        } else {
                            old(self).tasks@[i].role
                        },
                        ..old(self).tasks@[i]
                    },
                ),
                None => final(self).tasks@ == old(self).tasks@.push(
                    Task { id, title, role, since: now, status: TaskStatus::Running },
                ),
            },
    {
        match find_task(&self.tasks, id.as_str()) {
            Some(i) => {
                let t = &mut self.tasks[i];
                t.title = title;
                if role.is_some() {
                    t.role = role;
                }
            },
            None => {
                self.tasks.push(
                    Task { id, title, role, since: now, status: TaskStatus::Running },
                );
            },
        }
    }

    /// What a sub-agent is up to, in the line that is already there for it. One that is not known is
    /// not resurrected.
    pub fn task_progress(&mut self, id: &str, summary: Option<String>, last_tool: Option<String>) -> (r:
        bool)
        ensures
            r == task_among(old(self).tasks@, id@) is Some,
            *final(self) == (Round { tasks: final(self).tasks, ..*old(self) }),
            match task_among(old(self).tasks@, id@) {
                Some(i) => final(self).tasks@ == (match (summary, last_tool) {
                    (Some(s), _) => old(self).tasks@.update(
                        i,
                        Task { title: s, ..old(self).tasks@[i] },
                    ),
                    (None, Some(t)) => old(self).tasks@.update(
                        i,
                        Task { title: t, ..old(self).tasks@[i] },
                    ),
                    (None, None) => old(self).tasks@,
                }),
                None => final(self).tasks@ == old(self).tasks@,
            },
    {
        match find_task(&self.tasks, id) {
            None => false,
            Some(i) => {
                match (summary, last_tool) {
                    (Some(s), _) => {
                        self.tasks[i].title = s;
                    },
                    (None, Some(t)) => {
                        self.tasks[i].title = t;
                    },
                    (None, None) => {},
                }
                true
            },
        }
    }

    /// A sub-agent ended, and whether that is news. Kept after it has finished, so that a late report
    /// about it lands somewhere.
    pub fn task_ended(&mut self, id: &str, status: TaskStatus) -> (r: bool)
        ensures
            *final(self) == (Round { tasks: final(self).tasks, ..*old(self) }),
            match task_among(old(self).tasks@, id@) {
                Some(i) => r == (old(self).tasks@[i].status != status) && final(self).tasks@
                    == old(self).tasks@.update(i, Task { status, ..old(self).tasks@[i] }),
                None => !r && final(self).tasks@ == old(self).tasks@,
            },
    {
        match find_task(&self.tasks, id) {
            None => false,
            Some(i) => {
                if self.tasks[i].status == status {
                    assert(self.tasks@ =~= old(self).tasks@.update(
                        i as int,
                        Task { status, ..old(self).tasks@[i as int] },
                    ));
                    return false;
                }
                self.tasks[i].status = status;
                true
            },
        }
    }

    /// The driver answers nothing for several seconds. Without a word for it that is
    /// indistinguishable from a hang.
    pub fn compacting(&mut self)
        ensures
            final(self).note is Some,
            final(self).note->0@ == "Compacting the conversation"@,
            *final(self) == (Round { note: final(self).note, ..*old(self) }),
    {
        self.note = Some("Compacting the conversation".to_owned());
    }

    /// The plan was built from calls the driver can no longer see. Keeping it would be a checklist
    /// for work nothing is going to pick up.
    pub fn compacted(&mut self)
        ensures
            final(self).note is None,
            final(self).plan@.len() == 0,
            *final(self) == (Round { note: None, plan: final(self).plan, ..*old(self) }),
    {
        self.note = None;
        self.plan.clear();
    }
}

// ---- turns ------------------------------------------------------------------

/// A turn the host started and has not yet seen end.
#[derive(Debug)]
pub struct Turn {
    pub session: SessionId,
    /// It has been asked to stop and is winding down. A flag rather than the absence of an entry:
    /// the entry lives until the turn has ended.
    pub cancelling: bool,
    pub round: Round,
}

/// Which of some turns belongs to a conversation.
pub open spec fn turn_of(turns: Seq<Turn>, session: Seq<char>) -> Option<int>
    decreases turns.len(),
{
    if turns.len() == 0 {
        None
    } else if turns.last().session.0@ == session {
        Some(turns.len() - 1)
    } else {
        turn_of(turns.drop_last(), session)
    }
}

/// No conversation has two turns.
pub open spec fn one_each(turns: Seq<Turn>) -> bool {
    forall|i: int, j: int|
        0 <= i < j < turns.len() ==> (#[trigger] turns[i]).session.0@ != (
        #[trigger] turns[j]).session.0@
}

/// Every turn in flight, one for each conversation that has one.
#[derive(Debug)]
pub struct Turns {
    pub running: Vec<Turn>,
}

/// What becomes of something that was sent.
#[derive(Debug, Clone, Copy, PartialEq, Eq, Structural)]
pub enum Sent {
    /// It starts a turn.
    Started,
    /// A turn is running, and it is queued to be said at the next gap.
    Steered,
}

pub proof fn lemma_turn_of(turns: Seq<Turn>, session: Seq<char>)
    ensures
        match turn_of(turns, session) {
            Some(i) => 0 <= i < turns.len() && turns[i].session.0@ == session,
            None => forall|i: int|
                0 <= i < turns.len() ==> (#[trigger] turns[i]).session.0@ != session,
        },
    decreases turns.len(),
{
    if turns.len() > 0 && turns.last().session.0@ != session {
        lemma_turn_of(turns.drop_last(), session);
        if turn_of(turns.drop_last(), session) is None {
            assert forall|i: int| 0 <= i < turns.len() implies (#[trigger] turns[i]).session.0@
                != session by {
                if i < turns.len() - 1 {
                    assert(turns.drop_last()[i] == turns[i]);
                }
            }
        }
    }
}

impl Turns {
    pub open spec fn wf(self) -> bool {
        one_each(self.running@)
    }

    /// Whether a turn is running in a conversation.
    pub open spec fn has(self, session: Seq<char>) -> bool {
        turn_of(self.running@, session) is Some
    }

    pub fn new() -> (r: Turns)
        ensures
            r.wf(),
            r.running@.len() == 0,
    {
        Turns { running: Vec::new() }
    }

    /// Which of the turns belongs to a conversation.
    pub fn find(&self, session: &SessionId) -> (r: Option<usize>)
        ensures
            match r {
                Some(i) => i < self.running@.len() && turn_of(self.running@, session.0@) == Some(
                    i as int,
                ),
                None => turn_of(self.running@, session.0@) is None,
            },
    {
        let mut i: usize = self.running.len();
        assert(self.running@.take(i as int) =~= self.running@);
        while i > 0
            invariant
                i <= self.running@.len(),
                turn_of(self.running@, session.0@) == turn_of(
                    self.running@.take(i as int),
                    session.0@,
                ),
            decreases i,
        {
            assert(self.running@.take(i as int).drop_last() =~= self.running@.take(i - 1));
            if same_text(self.running[i - 1].session.0.as_str(), session.0.as_str()) {
                return Some(i - 1);
            }
            i = i - 1;
        }
        None
    }

    /// Start a turn in a named conversation, or steer the one that is running there. A turn that is
    /// winding down counts as running: its process has not finished with the conversation yet.
    pub fn start_turn_in(&mut self, session: SessionId, clock: i64, now: u64) -> (r: Sent)
        requires
            old(self).wf(),
        ensures
            final(self).wf(),
            if old(self).has(session.0@) {
                r == Sent::Steered && final(self).running == old(self).running
            } else {
                let t = final(self).running@.last();
                &&& r == Sent::Started
                &&& final(self).running@.len() == old(self).running@.len() + 1
                &&& final(self).running@.drop_last() == old(self).running@
                &&& t.session == session
                &&& !t.cancelling
                &&& t.round.verb == VERBS@[distance(clock as int) % 12]
                &&& t.round.started == now
                &&& t.round.note is None
                &&& t.round.said@.len() == 0
                &&& t.round.plan@.len() == 0
                &&& t.round.tasks@.len() == 0
            },
    {
        if self.find(&session).is_some() {
            return Sent::Steered;
        }
        let ghost given = self.running@;
        let round = Round::new(verb_at(clock), now);
        self.running.push(Turn { session, cancelling: false, round });
        proof {
            lemma_turn_of(given, session.0@);
            assert(self.running@.drop_last() =~= given);
            assert forall|i: int, j: int| 0 <= i < j < self.running@.len() implies (
            #[trigger] self.running@[i]).session.0@ != (#[trigger] self.running@[j]).session.0@ by {
                assert(self.running@[i] == given[i]);
                if j < given.len() {
                    assert(self.running@[j] == given[j]);
                }
            }
        }
        Sent::Started
    }

    /// Ask the turn in a conversation to stop. `None` when there was no turn there; `Some(true)` when
    /// this press is what stopped it, and `Some(false)` when it was already winding down. The entry
    /// stays until the turn actually ends.
    pub fn cancel(&mut self, session: &SessionId) -> (r: Option<bool>)
        requires
            old(self).wf(),
        ensures
            final(self).wf(),
            match turn_of(old(self).running@, session.0@) {
                None => r is None && final(self).running == old(self).running,
                Some(i) => {
                    &&& r == Some(!old(self).running@[i].cancelling)
                    &&& final(self).running@ == old(self).running@.update(
                        i,
                        Turn { cancelling: true, ..old(self).running@[i] },
                    )
                },
            },
    {
        match self.find(session) {
            None => None,
            Some(i) => {
                if self.running[i].cancelling {
                    assert(self.running@ =~= old(self).running@.update(
                        i as int,
                        Turn { cancelling: true, ..old(self).running@[i as int] },
                    ));
                    return Some(false);
                }
                self.running[i].cancelling = true;
                proof {
                    let v = self.running@;
                    let w = old(self).running@;
                    assert forall|a: int, b: int| 0 <= a < b < v.len() implies (
                    #[trigger] v[a]).session.0@ != (#[trigger] v[b]).session.0@ by {
                        assert(w[a].session.0@ != w[b].session.0@);
                    }
                }
                Some(true)
            },
        }
    }

    /// A turn has ended, or its conversation is going: it is no longer waited for.
    pub fn end(&mut self, session: &SessionId) -> (r: Option<Turn>)
        requires
            old(self).wf(),
        ensures
            final(self).wf(),
            !final(self).has(session.0@),
            match turn_of(old(self).running@, session.0@) {
                None => r is None && final(self).running == old(self).running,
                Some(i) => r == Some(old(self).running@[i]) && final(self).running@
                    == old(self).running@.remove(i),
            },
    {
        let ghost w = self.running@;
        match self.find(session) {
            None => None,
            Some(i) => {
                let t = self.running.remove(i);
                proof {
                    let v = self.running@;
                    lemma_turn_of(w, session.0@);
                    lemma_turn_of(v, session.0@);
                    assert forall|a: int, b: int| 0 <= a < b < v.len() implies (
                    #[trigger] v[a]).session.0@ != (#[trigger] v[b]).session.0@ by {
                        let x = if a < i {
                            a
                        } else {
                            a + 1
                        };
                        let y = if b < i {
                            b
                        } else {
                            b + 1
                        };
                        assert(v[a] == w[x] && v[b] == w[y]);
                        assert(w[x].session.0@ != w[y].session.0@);
                    }
                    if turn_of(v, session.0@) is Some {
                        let k = turn_of(v, session.0@)->0;
                        let x = if k < i {
                            k
                        } else {
                            k + 1
                        };
                        assert(v[k] == w[x]);
                        if x < i {
                            assert(w[x].session.0@ != w[i as int].session.0@);
                        } else {
                            assert(w[i as int].session.0@ != w[x].session.0@);
                        }
                    }
                }
                Some(t)
            },
        }
    }
}

/// Interrupting twice is interrupting once: the second press changes nothing, and says so.
pub proof fn interrupting_twice_is_interrupting_once(turns: Seq<Turn>, i: int)
    requires
        0 <= i < turns.len(),
    ensures
        ({
            let once = turns.update(i, Turn { cancelling: true, ..turns[i] });
            &&& once[i].cancelling
            &&& once.update(i, Turn { cancelling: true, ..once[i] }) == once
        }),
{
    let once = turns.update(i, Turn { cancelling: true, ..turns[i] });
    assert(once.update(i, Turn { cancelling: true, ..once[i] }) =~= once);
}

// ---- what a conversation remembers of its turns -----------------------------

/// What a conversation remembers of its turns.
#[derive(Debug)]
pub struct Record {
    /// Set while a turn is in flight, and written down, so that a process that never ends it leaves
    /// a note of that behind.
    pub running_since: Option<i64>,
    /// The last turn here never finished.
    pub interrupted: bool,
    /// Something was said here that nobody has looked at.
    pub unread: bool,
    pub updated_at: i64,
    /// What the driver calls this conversation.
    pub resume: Option<String>,
    /// How much the model can hold, where that is known.
    pub context_window: Option<u64>,
}

impl Record {
    /// A turn has started, and ends the previous one's mark. Says whether there was one.
    pub fn turn_started(&mut self, now: i64) -> (r: bool)
        ensures
            r == old(self).interrupted,
            *final(self) == (Record {
                running_since: Some(now),
                interrupted: false,
                ..*old(self)
            }),
    {
        let was = self.interrupted;
        self.running_since = Some(now);
        self.interrupted = false;
        was
    }

    /// A turn has ended, however it did. It is news only where you were not looking.
    pub fn turn_ended(&mut self, now: i64, on_screen: bool)
        ensures
            *final(self) == (Record {
                running_since: None,
                updated_at: now,
                unread: !on_screen,
                ..*old(self)
            }),
    {
        self.updated_at = now;
        self.running_since = None;
        self.unread = !on_screen;
    }

    /// What the driver calls this conversation, and whether that is news.
    pub fn resumes_as(&mut self, token: String) -> (r: bool)
        ensures
            r == !(old(self).resume is Some && old(self).resume->0@ == token@),
            *final(self) == (if r {
                Record { resume: Some(token), ..*old(self) }
            } else {
                *old(self)
            }),
    {
        if self.is_called(token.as_str()) {
            return false;
        }
        self.resume = Some(token);
        true
    }

    /// Whether the driver already calls this conversation that.
    pub fn is_called(&self, token: &str) -> (r: bool)
        ensures
            r == (self.resume is Some && self.resume->0@ == token@),
    {
        match &self.resume {
            Some(t) => same_text(t.as_str(), token),
            None => false,
        }
    }
}

// ---- what was queued --------------------------------------------------------

/// Something to send: the words, and the pictures with them.
#[derive(Debug)]
pub struct Prompt {
    pub text: String,
    pub images: Vec<String>,
}

/// The words of some messages.
pub open spec fn prompt_texts(v: Seq<Prompt>) -> Seq<Seq<char>> {
    v.map_values(|p: Prompt| p.text@)
}

/// The pictures of some messages, one after another.
pub open spec fn prompt_images(v: Seq<Prompt>) -> Seq<Seq<char>>
    decreases v.len(),
{
    if v.len() == 0 {
        seq![]
    } else {
        prompt_images(v.drop_last()) + texts(v.last().images@)
    }
}

/// Whether this is what was queued as one message: the words of each with a blank line between two of
/// them, and the pictures of all. Where nothing was queued there is none.
pub open spec fn is_leftover(queued: Seq<Prompt>, r: Option<Prompt>) -> bool {
    match r {
        None => queued.len() == 0,
        Some(p) => queued.len() > 0 && p.text@ == joined_with(prompt_texts(queued), "\n\n"@)
            && texts(p.images@) == prompt_images(queued),
    }
}

/// What was queued after the last gap a turn had, as the one message that starts the next. It is a
/// question that was asked and not yet answered.
pub fn leftover(queued: Vec<Prompt>) -> (r: Option<Prompt>)
    ensures
        is_leftover(queued@, r),
{
    if queued.len() == 0 {
        return None;
    }
    let mut words: Vec<String> = Vec::new();
    let mut images: Vec<String> = Vec::new();
    let mut i: usize = 0;
    assert(queued@.take(0) =~= seq![]);
    assert(texts(images@) =~= prompt_images(queued@.take(0)));
    while i < queued.len()
        invariant
            i <= queued@.len(),
            words@.len() == i,
            forall|j: int| 0 <= j < i ==> (#[trigger] words@[j])@ == queued@[j].text@,
            texts(images@) == prompt_images(queued@.take(i as int)),
        decreases queued@.len() - i,
    {
        proof {
            assert(queued@.take(i + 1).drop_last() =~= queued@.take(i as int));
            assert(queued@.take(i + 1).last() == queued@[i as int]);
        }
        words.push(queued[i].text.clone());
        let ghost above = texts(images@);
        let ghost more = texts(queued@[i as int].images@);
        let mut k: usize = 0;
        assert(texts(images@) =~= above + more.take(0));
        while k < queued[i as usize].images.len()
            invariant
                i < queued@.len(),
                k <= queued@[i as int].images@.len(),
                more == texts(queued@[i as int].images@),
                texts(images@) == above + more.take(k as int),
            decreases queued@[i as int].images@.len() - k,
        {
            let ghost was = texts(images@);
            images.push(queued[i].images[k].clone());
            assert(texts(images@) =~= was.push(more[k as int]));
            assert(above + more.take(k + 1) =~= was.push(more[k as int]));
            k = k + 1;
        }
        assert(more.take(k as int) =~= more);
        i = i + 1;
    }
    assert(queued@.take(i as int) =~= queued@);
    assert(texts(words@) =~= prompt_texts(queued@));
    Some(Prompt { text: join_with(&words, "\n\n"), images })
}

// ---- what follows from an event ---------------------------------------------

/// Something a turn did.
#[derive(Debug, Clone, Copy, PartialEq, Eq, Structural)]
pub enum Event {
    TurnStarted,
    Token,
    Thinking,
    ToolStarted,
    ToolFinished,
    TurnEnded,
    Committed,
    Steered,
    Activity,
    Notice,
}

/// What the workspace does about it.
#[derive(Debug, Clone, Copy, PartialEq, Eq, Structural)]
pub enum Step {
    /// Write this conversation down.
    SaveOne,
    /// Write every conversation down.
    SaveAll,
    RedrawTranscript,
    /// Send it to whoever is watching from another machine.
    StreamOut,
    /// Tell every plugin.
    Broadcast,
    DrawAnswer,
    DrawThinking,
    DrawCard,
    DrawWorking,
    FinishCard,
    /// Count what the call changed.
    Tally,
    CloseTurn,
    DrawQuestion,
    RefreshComposer,
    ScrollToEnd,
    /// What a plan has left is worth asking for again.
    QuotaDue,
    /// What was queued becomes the next turn.
    StartNext,
    /// Act on what the driver said of its own loop.
    HandleActivity,
    Say,
    RedrawFooter,
    /// A row saying what was compacted.
    DrawCompaction,
    /// How much of the window is used, and how much it holds.
    SetContext(u64, u64),
    /// The commands a driver offers in this conversation.
    KeepCommands,
    /// What a driver calls this conversation.
    KeepResume,
    /// What a plan has left, filed under the instance this conversation is talking to.
    TakeQuota,
}

/// What the workspace knows when an event arrives.
#[derive(Debug, Clone, Copy)]
pub struct Around {
    /// It came from the conversation on screen.
    pub on_screen: bool,
    /// Somebody is watching from another machine.
    pub watched: bool,
    /// The last turn here had been cut off.
    pub was_cut_off: bool,
    pub show_thinking: bool,
    /// Something was queued and not said.
    pub queued: bool,
    /// The call that came back went wrong.
    pub failed: bool,
}

pub open spec fn only_if(b: bool, s: Seq<Step>) -> Seq<Step> {
    if b {
        s
    } else {
        seq![]
    }
}

/// What the workspace does about an event, in order.
pub open spec fn follows(e: Event, a: Around) -> Seq<Step> {
    match e {
        Event::TurnStarted => seq![Step::SaveOne] + only_if(
            a.was_cut_off && a.on_screen,
            seq![Step::RedrawTranscript],
        ) + only_if(a.watched, seq![Step::StreamOut]) + seq![Step::Broadcast],
        Event::Token => only_if(a.on_screen, seq![Step::DrawAnswer]) + only_if(
            a.watched,
            seq![Step::StreamOut],
        ) + seq![Step::Broadcast],
        Event::Thinking => only_if(
            a.on_screen && a.show_thinking,
            seq![Step::DrawThinking],
        ) + only_if(a.watched, seq![Step::StreamOut]) + seq![Step::Broadcast],
        Event::ToolStarted => only_if(a.on_screen, seq![Step::DrawCard, Step::DrawWorking]) + seq![
            Step::Broadcast,
        ],
        Event::ToolFinished => only_if(!a.failed, seq![Step::Tally]) + only_if(
            a.on_screen,
            seq![Step::FinishCard, Step::DrawWorking],
        ) + seq![Step::Broadcast],
        Event::TurnEnded => only_if(a.on_screen, seq![Step::CloseTurn]) + seq![Step::SaveAll]
            + only_if(a.watched, seq![Step::StreamOut]) + seq![Step::Broadcast, Step::QuotaDue]
            + only_if(a.queued, seq![Step::StartNext]) + seq![Step::RefreshComposer],
        Event::Committed => seq![Step::SaveOne],
        Event::Steered => only_if(
            a.on_screen,
            seq![Step::DrawQuestion, Step::DrawWorking, Step::RefreshComposer, Step::ScrollToEnd],
        ),
        Event::Activity => only_if(a.watched, seq![Step::StreamOut]) + seq![Step::HandleActivity],
        Event::Notice => seq![Step::Say],
    }
}

fn push_if(v: &mut Vec<Step>, b: bool, s: Step)
    ensures
        final(v)@ == old(v)@ + only_if(b, seq![s]),
{
    if b {
        v.push(s);
        assert(v@ =~= old(v)@ + seq![s]);
    } else {
        assert(v@ =~= old(v)@ + Seq::<Step>::empty());
    }
}

/// What the workspace does about an event, in order.
pub fn steps_for(e: Event, a: Around) -> (r: Vec<Step>)
    ensures
        r@ == follows(e, a),
{
    let mut r: Vec<Step> = Vec::new();
    match e {
        Event::TurnStarted => {
            // This has to reach the disk *now* rather than at the next commit: the window it covers
            // starts here.
            r.push(Step::SaveOne);
            push_if(&mut r, a.was_cut_off && a.on_screen, Step::RedrawTranscript);
            push_if(&mut r, a.watched, Step::StreamOut);
            r.push(Step::Broadcast);
        },
        Event::Token => {
            push_if(&mut r, a.on_screen, Step::DrawAnswer);
            push_if(&mut r, a.watched, Step::StreamOut);
            r.push(Step::Broadcast);
        },
        Event::Thinking => {
            push_if(&mut r, a.on_screen && a.show_thinking, Step::DrawThinking);
            push_if(&mut r, a.watched, Step::StreamOut);
            r.push(Step::Broadcast);
        },
        Event::ToolStarted => {
            push_if(&mut r, a.on_screen, Step::DrawCard);
            push_if(&mut r, a.on_screen, Step::DrawWorking);
            r.push(Step::Broadcast);
        },
        Event::ToolFinished => {
            // Counted whether or not anyone is looking: the summary is drawn when the turn ends,
            // wherever you are by then.
            push_if(&mut r, !a.failed, Step::Tally);
            push_if(&mut r, a.on_screen, Step::FinishCard);
            push_if(&mut r, a.on_screen, Step::DrawWorking);
            r.push(Step::Broadcast);
        },
        Event::TurnEnded => {
            push_if(&mut r, a.on_screen, Step::CloseTurn);
            r.push(Step::SaveAll);
            push_if(&mut r, a.watched, Step::StreamOut);
            r.push(Step::Broadcast);
            r.push(Step::QuotaDue);
            push_if(&mut r, a.queued, Step::StartNext);
            r.push(Step::RefreshComposer);
        },
        Event::Committed => {
            r.push(Step::SaveOne);
        },
        Event::Steered => {
            push_if(&mut r, a.on_screen, Step::DrawQuestion);
            push_if(&mut r, a.on_screen, Step::DrawWorking);
            push_if(&mut r, a.on_screen, Step::RefreshComposer);
            push_if(&mut r, a.on_screen, Step::ScrollToEnd);
        },
        Event::Activity => {
            push_if(&mut r, a.watched, Step::StreamOut);
            r.push(Step::HandleActivity);
        },
        Event::Notice => {
            r.push(Step::Say);
        },
    }
    assert(r@ =~= follows(e, a));
    r
}

/// Something a turn did, with what it brought.
#[derive(Debug)]
pub enum Happened {
    TurnStarted,
    Token(String),
    Thinking,
    ToolStarted(ToolCall),
    /// Which call, and what it came back with.
    ToolFinished(ToolCall, ToolResult),
    TurnEnded,
    Committed,
    Steered,
    Activity,
    Notice,
}

/// What kind of event it was.
pub open spec fn kind_of(h: Happened) -> Event {
    match h {
        Happened::TurnStarted => Event::TurnStarted,
        Happened::Token(_) => Event::Token,
        Happened::Thinking => Event::Thinking,
        Happened::ToolStarted(_) => Event::ToolStarted,
        Happened::ToolFinished(_, _) => Event::ToolFinished,
        Happened::TurnEnded => Event::TurnEnded,
        Happened::Committed => Event::Committed,
        Happened::Steered => Event::Steered,
        Happened::Activity => Event::Activity,
        Happened::Notice => Event::Notice,
    }
}

/// What is known when an event arrives, once it and its conversation have been looked at.
pub open spec fn known_of(a: Around, h: Happened, record: Record, queued: bool) -> Around {
    Around {
        was_cut_off: record.interrupted,
        queued,
        failed: match h {
            Happened::ToolFinished(_, r) => r.is_error,
            _ => false,
        },
        ..a
    }
}

/// Whether more text has been heard: on the end of what is being said, or as something new where the
/// last thing was a call.
pub open spec fn heard(was: Seq<Said>, text: Seq<char>, is: Seq<Said>) -> bool {
    if was.len() > 0 && was.last() is Text {
        &&& is.len() == was.len()
        &&& is.drop_last() == was.drop_last()
        &&& is.last() is Text
        &&& is.last()->Text_0@ == was.last()->Text_0@ + text
    } else {
        &&& is.len() == was.len() + 1
        &&& is.drop_last() == was
        &&& is.last() is Text
        &&& is.last()->Text_0@ == text
    }
}

/// Whether this is a round after something its turn did.
pub open spec fn after_event(was: Round, h: Happened, is: Round) -> bool {
    match h {
        Happened::Token(text) => {
            &&& is == (Round { said: is.said, ..was })
            &&& heard(was.said@, text@, is.said@)
        },
        Happened::ToolStarted(call) => {
            &&& is == (Round { said: is.said, note: is.note, ..was })
            &&& is.note is Some && is.note->0@ == "Running "@ + call.name@
            &&& is.said@ == was.said@.push(Said::Tool(call, None))
        },
        Happened::ToolFinished(call, result) => {
            &&& is == (Round { said: is.said, note: None, counted: is.counted, ..was })
            &&& is.counted@ == (if result.is_error {
                was.counted@
            } else {
                was.counted@.push(call)
            })
            &&& match call_said(was.said@, call.id@) {
                Some(i) => is.said@ == was.said@.update(
                    i,
                    Said::Tool(was.said@[i]->Tool_0, Some(result)),
                ),
                None => is.said@ == was.said@,
            }
        },
        Happened::Committed => {
            &&& is == (Round { said: is.said, ..was })
            &&& is.said@.len() == 0
        },
        _ => is == was,
    }
}

/// Whether these are the turns after something one of them did: the one it is about has taken it in,
/// or has gone where it is over, and nothing else has changed.
pub open spec fn turns_after(was: Seq<Turn>, session: Seq<char>, h: Happened, is: Seq<Turn>) -> bool {
    match turn_of(was, session) {
        None => is == was,
        Some(i) => if h is TurnEnded {
            is == was.remove(i)
        } else {
            &&& is.len() == was.len()
            &&& forall|j: int| 0 <= j < is.len() && j != i ==> #[trigger] is[j] == was[j]
            &&& is[i] == (Turn { round: is[i].round, ..was[i] })
            &&& after_event(was[i].round, h, is[i].round)
        },
    }
}

/// What a conversation remembers after something its turn did.
pub open spec fn record_after(was: Record, h: Happened, on_screen: bool, clock: i64) -> Record {
    match h {
        Happened::TurnStarted => Record { running_since: Some(clock), interrupted: false, ..was },
        Happened::TurnEnded => Record {
            running_since: None,
            updated_at: clock,
            unread: !on_screen,
            ..was
        },
        _ => was,
    }
}

/// What comes of something a turn did.
#[derive(Debug)]
pub struct Followed {
    /// What the rest of the workspace does about it, in order.
    pub steps: Vec<Step>,
    /// What the next turn starts with, where one starts.
    pub next: Option<Prompt>,
    /// The turn that is over, where one is: its plan, the sub-agents it leaves behind and the calls
    /// that count are what its closing rows are drawn from.
    pub ended: Option<Turn>,
}

impl Turns {
    /// Route one thing a turn did. What a conversation has said so far, and whether its turn is
    /// still running, is kept for every event whatever is on screen; what comes back is what the rest
    /// of the workspace does about it, in order. `queued` is what was typed for the running turn and
    /// has not been said: what is left of it when the turn ends is what the next one starts with.
    pub fn handle_agent_event(
        &mut self,
        session: &SessionId,
        happened: Happened,
        record: &mut Record,
        queued: &mut Vec<Prompt>,
        around: Around,
        clock: i64,
    ) -> (r: Followed)
        requires
            old(self).wf(),
        ensures
            final(self).wf(),
            turns_after(old(self).running@, session.0@, happened, final(self).running@),
            *final(record) == record_after(*old(record), happened, around.on_screen, clock),
            r.steps@ == follows(
                kind_of(happened),
                known_of(around, happened, *old(record), old(queued)@.len() > 0),
            ),
            if happened is TurnEnded {
                is_leftover(old(queued)@, r.next) && final(queued)@.len() == 0
            } else {
                r.next is None && *final(queued) == *old(queued)
            },
            r.ended == (match turn_of(old(self).running@, session.0@) {
                Some(i) if happened is TurnEnded => Some(old(self).running@[i]),
                _ => None,
            }),
    {
        let mut a = around;
        a.was_cut_off = record.interrupted;
        a.queued = queued.len() > 0;
        a.failed = match &happened {
            Happened::ToolFinished(_, result) => result.is_error,
            _ => false,
        };
        let event = event_of(&happened);
        let mut next: Option<Prompt> = None;
        let mut ended: Option<Turn> = None;
        match event {
            Event::TurnEnded => {
                let mut left: Vec<Prompt> = Vec::new();
                left.append(queued);
                assert(left@ =~= old(queued)@);
                next = leftover(left);
                ended = self.end(session);
                record.turn_ended(clock, around.on_screen);
            },
            Event::TurnStarted => {
                record.turn_started(clock);
                self.hear(session, happened);
            },
            _ => {
                self.hear(session, happened);
            },
        }
        Followed { steps: steps_for(event, a), next, ended }
    }

    /// Take in what a running turn did, where there is one.
    fn hear(&mut self, session: &SessionId, happened: Happened)
        requires
            old(self).wf(),
            !(happened is TurnEnded),
        ensures
            final(self).wf(),
            turns_after(old(self).running@, session.0@, happened, final(self).running@),
    {
        let ghost given = self.running@;
        proof {
            lemma_turn_of(given, session.0@);
        }
        if let Some(i) = self.find(session) {
            let ghost was = self.running@[i as int].round;
            match happened {
                Happened::Token(text) => {
                    self.running[i].round.heard_text(text.as_str());
                },
                Happened::ToolStarted(call) => {
                    self.running[i].round.tool_started(call);
                },
                Happened::ToolFinished(call, result) => {
                    let went_wrong = result.is_error;
                    self.running[i].round.tool_finished(call.id.as_str(), result);
                    if !went_wrong {
                        self.running[i].round.count(call);
                    }
                },
                Happened::Committed => {
                    self.running[i].round.committed();
                },
                _ => {},
            }
            proof {
                let v = self.running@;
                assert(after_event(was, happened, v[i as int].round));
                assert forall|x: int, y: int| 0 <= x < y < v.len() implies (
                #[trigger] v[x]).session.0@ != (#[trigger] v[y]).session.0@ by {
                    assert(given[x].session.0@ != given[y].session.0@);
                }
            }
        }
    }
}

/// What kind of event it was.
fn event_of(h: &Happened) -> (r: Event)
    ensures
        r == kind_of(*h),
{
    match h {
        Happened::TurnStarted => Event::TurnStarted,
        Happened::Token(_) => Event::Token,
        Happened::Thinking => Event::Thinking,
        Happened::ToolStarted(_) => Event::ToolStarted,
        Happened::ToolFinished(_, _) => Event::ToolFinished,
        Happened::TurnEnded => Event::TurnEnded,
        Happened::Committed => Event::Committed,
        Happened::Steered => Event::Steered,
        Happened::Activity => Event::Activity,
        Happened::Notice => Event::Notice,
    }
}

/// What a turn changed is what its calls changed that came back without an error, in the order they
/// came back: another event, or a failure, counts for nothing.
pub proof fn only_what_worked_is_counted(was: Round, h: Happened, is: Round)
    requires
        after_event(was, h, is),
    ensures
        is.counted@ == (match h {
            Happened::ToolFinished(call, result) => if result.is_error {
                was.counted@
            } else {
                was.counted@.push(call)
            },
            _ => was.counted@,
        }),
{
}

/// What was queued becomes one turn, and only when the one before it has ended: the next is started
/// exactly once where something is left, never where nothing is, and what ended has been written down
/// by then.
pub proof fn what_is_queued_starts_one_turn(e: Event, a: Around, i: int, j: int)
    requires
        0 <= i < follows(e, a).len(),
        0 <= j < follows(e, a).len(),
        follows(e, a)[i] is StartNext,
    ensures
        e is TurnEnded && a.queued,
        follows(e, a)[j] is StartNext ==> i == j,
        follows(e, a)[j] is SaveAll ==> j < i,
{
    if e is TurnEnded {
        let front = only_if(a.on_screen, seq![Step::CloseTurn]) + seq![Step::SaveAll];
        let out = only_if(a.watched, seq![Step::StreamOut]);
        let told = seq![Step::Broadcast, Step::QuotaDue];
        let next = only_if(a.queued, seq![Step::StartNext]);
        let n = (front.len() + out.len() + 2) as int;
        assert(follows(e, a) == front + out + told + next + seq![Step::RefreshComposer]);
        assert forall|k: int| 0 <= k < n implies !(#[trigger] follows(e, a)[k] is StartNext) by {
            if k < front.len() {
                assert(follows(e, a)[k] == front[k]);
            } else if k < front.len() + out.len() {
                assert(follows(e, a)[k] == out[k - front.len()]);
            } else {
                assert(follows(e, a)[k] == told[k - front.len() - out.len()]);
            }
        }
        assert forall|k: int| n <= k < follows(e, a).len() implies !(#[trigger] follows(
            e,
            a,
        )[k] is SaveAll) && (follows(e, a)[k] is StartNext ==> k == n && a.queued) by {
            if k < n + next.len() {
                assert(follows(e, a)[k] == next[k - n]);
            } else {
                assert(follows(e, a)[k] == Step::RefreshComposer);
            }
        }
    } else {
        lemma_nothing_starts(e, a, i);
    }
}

#[verifier::rlimit(40)]
proof fn lemma_nothing_starts(e: Event, a: Around, i: int)
    requires
        !(e is TurnEnded),
        0 <= i < follows(e, a).len(),
    ensures
        !(follows(e, a)[i] is StartNext),
{
}

/// Where something is left when a turn ends, the next one is started.
pub proof fn nothing_queued_is_dropped(a: Around)
    requires
        a.queued,
    ensures
        exists|i: int|
            0 <= i < follows(Event::TurnEnded, a).len() && #[trigger] follows(
                Event::TurnEnded,
                a,
            )[i] is StartNext,
{
    let v = follows(Event::TurnEnded, a);
    assert(v[v.len() - 2] is StartNext);
}

/// Every turn that starts ends, however it ends: the note that one is in flight is gone once it has.
pub proof fn a_turn_that_ended_leaves_no_note(was: Record, on_screen: bool, a: i64, b: i64)
    ensures
        ({
            let began = record_after(was, Happened::TurnStarted, on_screen, a);
            let over = record_after(began, Happened::TurnEnded, on_screen, b);
            &&& began.running_since == Some(a)
            &&& over.running_since is None
            &&& !over.interrupted
            &&& over.unread == !on_screen
        }),
{
}

/// A step that draws in the transcript on screen.
pub open spec fn draws(s: Step) -> bool {
    s is RedrawTranscript || s is DrawAnswer || s is DrawThinking || s is DrawCard
        || s is DrawWorking || s is FinishCard || s is CloseTurn || s is DrawQuestion
        || s is RedrawFooter || s is DrawCompaction
}

/// No turn writes into another's transcript: an event from a conversation that is not on screen
/// draws nothing.
pub proof fn nothing_off_screen_is_drawn(e: Event, a: Around, i: int)
    requires
        !a.on_screen,
        0 <= i < follows(e, a).len(),
    ensures
        !draws(follows(e, a)[i]),
{
}

// ---- what a driver says of its own loop -------------------------------------

/// What a driver said of its own loop.
#[derive(Debug)]
pub enum Activity {
    Plan(Vec<PlanStep>),
    /// Which sub-agent, what it is for, and what kind it is.
    TaskStarted(String, String, Option<String>),
    /// Which sub-agent, what it says it is doing, and what it last ran.
    TaskProgress(String, Option<String>, Option<String>),
    TaskEnded(String, TaskStatus),
    Compacting,
    /// What the window holds now, where the driver said.
    Compacted(Option<u64>),
    Commands,
    Resume(String),
    /// How much of the window is used, and how much it holds.
    Context(u64, u64),
    Quota,
}

/// What a round is after what a driver said.
pub open spec fn after_activity(was: Round, a: Activity, now: u64, is: Round) -> bool {
    match a {
        Activity::Plan(steps) => is == (if same_plan(was.plan@, steps@) {
            was
        } else {
            Round { plan: steps, ..was }
        }),
        Activity::TaskStarted(id, title, role) => {
            &&& is == (Round { tasks: is.tasks, ..was })
            &&& match task_among(was.tasks@, id@) {
                Some(i) => is.tasks@ == was.tasks@.update(
                    i,
                    Task {
                        title,
                        role: if role is Some {
                            role
                        } else {
                            was.tasks@[i].role
                        },
                        ..was.tasks@[i]
                    },
                ),
                None => is.tasks@ == was.tasks@.push(
                    Task { id, title, role, since: now, status: TaskStatus::Running },
                ),
            }
        },
        Activity::TaskProgress(id, summary, last_tool) => {
            &&& is == (Round { tasks: is.tasks, ..was })
            &&& match task_among(was.tasks@, id@) {
                Some(i) => is.tasks@ == (match (summary, last_tool) {
                    (Some(s), _) => was.tasks@.update(i, Task { title: s, ..was.tasks@[i] }),
                    (None, Some(t)) => was.tasks@.update(i, Task { title: t, ..was.tasks@[i] }),
                    (None, None) => was.tasks@,
                }),
                None => is.tasks@ == was.tasks@,
            }
        },
        Activity::TaskEnded(id, status) => {
            &&& is == (Round { tasks: is.tasks, ..was })
            &&& match task_among(was.tasks@, id@) {
                Some(i) => is.tasks@ == was.tasks@.update(i, Task { status, ..was.tasks@[i] }),
                None => is.tasks@ == was.tasks@,
            }
        },
        Activity::Compacting => {
            &&& is == (Round { note: is.note, ..was })
            &&& is.note is Some
            &&& is.note->0@ == "Compacting the conversation"@
        },
        Activity::Compacted(_) => {
            &&& is == (Round { note: None, plan: is.plan, ..was })
            &&& is.plan@.len() == 0
        },
        _ => is == was,
    }
}

/// Whether what a driver said changes the footer under the working line.
pub open spec fn moves_footer(was: Option<Round>, a: Activity) -> bool {
    match was {
        None => false,
        Some(was) => match a {
            Activity::Plan(steps) => !same_plan(was.plan@, steps@),
            Activity::TaskStarted(_, _, _) => true,
            Activity::TaskProgress(id, _, _) => task_among(was.tasks@, id@) is Some,
            Activity::TaskEnded(id, status) => match task_among(was.tasks@, id@) {
                Some(i) => was.tasks@[i].status != status,
                None => false,
            },
            _ => false,
        },
    }
}

/// What the workspace does about what a driver said of its own loop, in order. `record` is what the
/// conversation remembers, where there is one, and `placed` whether it is known which instance it
/// talks to.
pub open spec fn activity_follows(
    was: Option<Round>,
    record: Option<Record>,
    a: Activity,
    on_screen: bool,
    placed: bool,
) -> Seq<Step> {
    seq![Step::Broadcast] + match a {
        Activity::Compacting => only_if(on_screen, seq![Step::DrawWorking]),
        Activity::Compacted(after) => (match after {
            Some(used) => only_if(
                record is Some,
                seq![Step::SetContext(used, window_of(record))],
            ) + seq![Step::SaveAll],
            None => seq![],
        }) + only_if(
            on_screen,
            seq![Step::DrawCompaction, Step::RedrawFooter, Step::DrawWorking],
        ),
        Activity::Commands => seq![Step::KeepCommands],
        Activity::Resume(token) => only_if(
            record is Some && !(record->0.resume is Some && record->0.resume->0@ == token@),
            seq![Step::KeepResume, Step::SaveAll],
        ),
        Activity::Context(used, total) => only_if(
            record is Some,
            seq![Step::SetContext(used, total)],
        ) + seq![Step::SaveAll],
        Activity::Quota => only_if(placed, seq![Step::TakeQuota]),
        _ => only_if(on_screen && moves_footer(was, a), seq![Step::RedrawFooter]),
    }
}

/// How much a conversation's model can hold, and nothing where that is not known.
pub open spec fn window_of(record: Option<Record>) -> u64 {
    match record {
        Some(r) => match r.context_window {
            Some(w) => w,
            None => 0,
        },
        None => 0,
    }
}

/// The round of the turn running in a conversation.
pub open spec fn round_in(turns: Seq<Turn>, session: Seq<char>) -> Option<Round> {
    match turn_of(turns, session) {
        Some(i) => Some(turns[i].round),
        None => None,
    }
}

impl Turns {
    /// What a driver said, written down in the round it is about; and whether the footer moved.
    fn take_in(&mut self, session: &SessionId, activity: Activity, now: u64) -> (r: bool)
        requires
            old(self).wf(),
        ensures
            final(self).wf(),
            r == moves_footer(round_in(old(self).running@, session.0@), activity),
            told(old(self).running@, session.0@, activity, now, final(self).running@),
    {
        let i = match self.find(session) {
            None => {
                return false;
            },
            Some(i) => i,
        };
        let ghost given = self.running@;
        let moved = match activity {
            Activity::Plan(steps) => self.running[i].round.set_plan(steps),
            Activity::TaskStarted(id, title, role) => {
                self.running[i].round.task_started(id, title, role, now);
                true
            },
            Activity::TaskProgress(id, summary, last_tool) => self.running[i].round.task_progress(
                id.as_str(),
                summary,
                last_tool,
            ),
            Activity::TaskEnded(id, status) => self.running[i].round.task_ended(id.as_str(), status),
            Activity::Compacting => {
                self.running[i].round.compacting();
                false
            },
            Activity::Compacted(_) => {
                self.running[i].round.compacted();
                false
            },
            _ => false,
        };
        proof {
            let v = self.running@;
            assert forall|a: int, b: int| 0 <= a < b < v.len() implies (#[trigger] v[a]).session.0@
                != (#[trigger] v[b]).session.0@ by {
                assert(given[a].session.0@ != given[b].session.0@);
            }
        }
        moved
    }

    /// Route one thing the driver's own loop said about itself. A conversation off screen still
    /// learns which sub-agents it has out and what its plan is, because switching to it should show
    /// what is true.
    pub fn handle_activity(
        &mut self,
        session: &SessionId,
        activity: Activity,
        record: Option<&Record>,
        on_screen: bool,
        placed: bool,
        now: u64,
    ) -> (r: Vec<Step>)
        requires
            old(self).wf(),
        ensures
            final(self).wf(),
            told(old(self).running@, session.0@, activity, now, final(self).running@),
            r@ == activity_follows(
                round_in(old(self).running@, session.0@),
                match record {
                    Some(x) => Some(*x),
                    None => None,
                },
                activity,
                on_screen,
                placed,
            ),
    {
        let ghost was = round_in(self.running@, session.0@);
        let ghost known: Option<Record> = match record {
            Some(x) => Some(*x),
            None => None,
        };
        let mut r: Vec<Step> = Vec::new();
        // Out to plugins before it is drawn, and whatever it is.
        r.push(Step::Broadcast);
        match &activity {
            Activity::Compacting => {
                push_if(&mut r, on_screen, Step::DrawWorking);
            },
            Activity::Compacted(after) => {
                // Compaction is the one moment the number moves without a request being made.
                if let Some(used) = after {
                    if let Some(x) = record {
                        let window = match x.context_window {
                            Some(w) => w,
                            None => 0,
                        };
                        r.push(Step::SetContext(*used, window));
                    }
                    r.push(Step::SaveAll);
                }
                push_if(&mut r, on_screen, Step::DrawCompaction);
                push_if(&mut r, on_screen, Step::RedrawFooter);
                push_if(&mut r, on_screen, Step::DrawWorking);
            },
            Activity::Commands => {
                r.push(Step::KeepCommands);
            },
            Activity::Resume(token) => {
                if let Some(x) = record {
                    let news = !x.is_called(token.as_str());
                    push_if(&mut r, news, Step::KeepResume);
                    push_if(&mut r, news, Step::SaveAll);
                }
            },
            Activity::Context(used, total) => {
                push_if(&mut r, record.is_some(), Step::SetContext(*used, *total));
                r.push(Step::SaveAll);
            },
            Activity::Quota => {
                push_if(&mut r, placed, Step::TakeQuota);
            },
            _ => {},
        }
        let moved = self.take_in(session, activity, now);
        push_if(&mut r, on_screen && moved, Step::RedrawFooter);
        assert(r@ =~= activity_follows(was, known, activity, on_screen, placed));
        r
    }
}

/// What the turns are after a driver said something: the round it is about has taken it in, and
/// nothing else has changed.
pub open spec fn told(
    was: Seq<Turn>,
    session: Seq<char>,
    a: Activity,
    now: u64,
    is: Seq<Turn>,
) -> bool {
    match turn_of(was, session) {
        None => is == was,
        Some(i) => {
            &&& is.len() == was.len()
            &&& forall|j: int| 0 <= j < is.len() && j != i ==> #[trigger] is[j] == was[j]
            &&& is[i] == (Turn { round: is[i].round, ..was[i] })
            &&& after_activity(was[i].round, a, now, is[i].round)
        },
    }
}

/// Off screen, what a driver says of its own loop draws nothing.
pub proof fn no_activity_off_screen_is_drawn(
    was: Option<Round>,
    record: Option<Record>,
    a: Activity,
    placed: bool,
    i: int,
)
    requires
        0 <= i < activity_follows(was, record, a, false, placed).len(),
    ensures
        !draws(activity_follows(was, record, a, false, placed)[i]),
{
}

/// Which configured instance a conversation is talking to: its own choice first, and the
/// workspace's only for one that has not chosen.
pub fn instance_of(chosen: Option<String>, workspace: Option<String>) -> (r: Option<String>)
    ensures
        r == (if chosen is Some {
            chosen
        } else {
            workspace
        }),
{
    match chosen {
        Some(c) => Some(c),
        None => workspace,
    }
}

} // verus!
