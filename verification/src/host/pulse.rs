//! The loop's own clocks: when something is drawn, how long half a binding waits, how often a number
//! nobody edited moves, and when a plan is asked what it has left.
//!
//! Each is separate, because each answers a different question. None restarts while it runs: a fast
//! stream would otherwise never reach its deadline.

use vstd::prelude::*;

verus! {

/// How long it is until a plan is asked what it has left.
#[derive(Debug, Clone, Copy, PartialEq, Eq, Structural)]
pub enum Until {
    /// A moment, because a turn has just ended, or nothing has been asked yet.
    AfterTurn,
    /// As long as it is while nothing happens.
    Idle,
}

/// A clock that was set.
#[derive(Debug, Clone, Copy, PartialEq, Eq, Structural)]
pub enum Clock {
    /// A burst of edits is drawn together.
    Frame,
    /// The rest of a binding may still come, for so many milliseconds.
    Keys(u64),
    /// A second on the working line.
    Second,
    /// A plan is asked.
    Plan(Until),
}

/// How long a burst of edits gathers before it is drawn, in milliseconds.
pub const COALESCE: u64 = 16;

impl Clock {
    /// How long it runs, in milliseconds. How long a plan is left alone is the plan's to say.
    pub fn lasts(self) -> (r: Option<u64>)
        ensures
            r == (match self {
                Clock::Frame => Some(COALESCE),
                Clock::Keys(ms) => Some(ms),
                Clock::Second => Some(1_000),
                Clock::Plan(_) => None,
            }),
    {
        match self {
            Clock::Frame => Some(COALESCE),
            Clock::Keys(ms) => Some(ms),
            Clock::Second => Some(1_000),
            Clock::Plan(_) => None,
        }
    }
}

/// What the loop does of its own accord.
#[derive(Debug, Clone, Copy, PartialEq, Eq, Structural)]
pub enum Chore {
    /// Draw what is waiting to be drawn.
    Flush,
    DrawWorking,
    TickCards,
    TickFooter,
    /// Say what is running, if it has not just been said.
    ReportLive,
    /// Say what is running.
    ReportLiveNow,
    /// Take what was typed of a binding for what it is.
    FlushKeys,
    /// Ask every plan what it has left.
    RefreshQuota,
    SaveSessions,
    /// Send a terminal away.
    Detach(u64),
    /// Tell what draws that it is over.
    Shutdown,
    /// Set a clock, whether it was running or not.
    Wind(Clock),
}

/// What the loop holds between one event and the next.
#[derive(Debug, Clone, Copy, PartialEq, Eq, Structural)]
pub struct Pulse {
    /// A frame is on its way.
    pub armed: bool,
    /// Half a binding has been typed, and its clock is running.
    pub waiting: bool,
    /// The second on the working line is running.
    pub ticking: bool,
    /// How many times in a row a plan was asked and did not answer.
    pub backoff: u32,
}

/// What an event left behind.
#[derive(Debug, Clone, Copy, PartialEq, Eq, Structural)]
pub struct After {
    /// Everything ends.
    pub quitting: bool,
    /// This terminal goes, and the workspace stays.
    pub detaching: Option<u64>,
    /// A key was pressed.
    pub keys_touched: bool,
    /// What was typed may be the start of a binding.
    pub keys_pending: bool,
    /// A turn is running on screen.
    pub working: bool,
    /// A turn has just ended.
    pub quota_due: bool,
    /// Something is waiting to be drawn.
    pub pending_ui: bool,
    /// How long half a binding waits, where that is set.
    pub timeoutlen: Option<i64>,
}

/// How long half a binding waits.
pub open spec fn patience(timeoutlen: Option<i64>) -> u64 {
    match timeoutlen {
        None => 500,
        Some(ms) => if ms < 0 {
            0
        } else {
            ms as u64
        },
    }
}

/// What sending a terminal away takes: what was said is kept, and what is drawn is drawn, before it
/// goes.
pub open spec fn leaving(view: u64) -> Seq<Chore> {
    seq![Chore::SaveSessions, Chore::Flush, Chore::Detach(view), Chore::ReportLiveNow]
}

/// What is done after an event, in order: a terminal that asked to leave is sent away, and the clocks
/// that are called for are set.
pub open spec fn done_after(p: Pulse, a: After) -> Seq<Chore> {
    sent_away(a) + wound_after(p, a)
}

/// What sends a terminal away that asked to leave.
pub open spec fn sent_away(a: After) -> Seq<Chore> {
    match a.detaching {
        Some(view) => leaving(view),
        None => seq![],
    }
}

/// A chore where something calls for it.
pub open spec fn where_called(called: bool, c: Chore) -> Seq<Chore> {
    if called {
        seq![c]
    } else {
        seq![]
    }
}

/// The clocks that are set after an event, in order.
pub open spec fn wound_after(p: Pulse, a: After) -> Seq<Chore> {
    where_called(
        a.keys_touched && a.keys_pending,
        Chore::Wind(Clock::Keys(patience(a.timeoutlen))),
    ) + where_called(a.working && !p.ticking, Chore::Wind(Clock::Second)) + where_called(
        a.quota_due,
        Chore::Wind(Clock::Plan(Until::AfterTurn)),
    ) + where_called(a.pending_ui && !p.armed, Chore::Wind(Clock::Frame))
}

/// What is done last of all: what was said is kept, and what is drawn is drawn.
pub open spec fn ending() -> Seq<Chore> {
    seq![Chore::SaveSessions, Chore::Flush, Chore::Shutdown]
}

/// What the loop does after an event.
#[derive(Debug)]
pub enum Turned {
    /// It ends, after these.
    End(Vec<Chore>),
    /// It goes on, after these.
    On(Vec<Chore>),
}

/// What a clock that has run out calls for.
pub open spec fn due_of(c: Clock) -> Seq<Chore> {
    match c {
        Clock::Frame => seq![Chore::Flush],
        Clock::Second => seq![
            Chore::DrawWorking,
            Chore::TickCards,
            Chore::TickFooter,
            Chore::ReportLive,
        ],
        Clock::Keys(_) => seq![Chore::FlushKeys],
        Clock::Plan(_) => seq![Chore::RefreshQuota, Chore::Wind(Clock::Plan(Until::Idle))],
    }
}

impl Pulse {
    pub fn new() -> (r: Pulse)
        ensures
            r == (Pulse { armed: false, waiting: false, ticking: false, backoff: 0 }),
    {
        Pulse { armed: false, waiting: false, ticking: false, backoff: 0 }
    }

    /// The one clock that runs from the start: a gauge that only appears after minutes of sitting
    /// there is one nobody knows exists.
    pub fn first() -> (r: Clock)
        ensures
            r == Clock::Plan(Until::AfterTurn),
    {
        Clock::Plan(Until::AfterTurn)
    }

    /// Do what an event calls for, and set the clocks it calls for, each only where it is not
    /// running. What was left behind is taken: it is not called for a second time.
    pub fn turn(&mut self, a: &mut After) -> (r: Turned)
        ensures
            if old(a).quitting {
                &&& r is End
                &&& r->End_0@ == ending()
                &&& *final(self) == *old(self)
                &&& *final(a) == *old(a)
            } else {
                &&& r is On
                &&& r->On_0@ == done_after(*old(self), *old(a))
                &&& *final(self) == (Pulse {
                    waiting: if old(a).keys_touched {
                        old(a).keys_pending
                    } else {
                        old(self).waiting
                    },
                    ticking: old(self).ticking || old(a).working,
                    armed: old(self).armed || old(a).pending_ui,
                    ..*old(self)
                })
                &&& *final(a) == (After {
                    detaching: None,
                    keys_touched: false,
                    quota_due: false,
                    ..*old(a)
                })
            },
    {
        let ghost a0 = *a;
        let mut v: Vec<Chore> = Vec::new();
        if a.quitting {
            v.push(Chore::SaveSessions);
            v.push(Chore::Flush);
            v.push(Chore::Shutdown);
            assert(v@ =~= ending());
            return Turned::End(v);
        }
        if let Some(view) = a.detaching {
            v.push(Chore::SaveSessions);
            v.push(Chore::Flush);
            v.push(Chore::Detach(view));
            v.push(Chore::ReportLiveNow);
            a.detaching = None;
        }
        assert(v@ =~= sent_away(a0));
        let mut clocks = self.wind(a);
        v.append(&mut clocks);
        Turned::On(v)
    }

    /// Set the clocks that are called for.
    fn wind(&mut self, a: &mut After) -> (v: Vec<Chore>)
        ensures
            v@ == wound_after(*old(self), *old(a)),
            *final(self) == (Pulse {
                waiting: if old(a).keys_touched {
                    old(a).keys_pending
                } else {
                    old(self).waiting
                },
                ticking: old(self).ticking || old(a).working,
                armed: old(self).armed || old(a).pending_ui,
                ..*old(self)
            }),
            *final(a) == (After { keys_touched: false, quota_due: false, ..*old(a) }),
    {
        let ghost p0 = *self;
        let ghost a0 = *a;
        let mut v: Vec<Chore> = Vec::new();
        if a.keys_touched {
            a.keys_touched = false;
            self.waiting = a.keys_pending;
            if a.keys_pending {
                let ms = match a.timeoutlen {
                    None => 500,
                    Some(ms) => if ms < 0 {
                        0
                    } else {
                        ms as u64
                    },
                };
                v.push(Chore::Wind(Clock::Keys(ms)));
            }
        }
        let ghost first = v@;
        assert(first =~= where_called(
            a0.keys_touched && a0.keys_pending,
            Chore::Wind(Clock::Keys(patience(a0.timeoutlen))),
        ));
        if a.working && !self.ticking {
            v.push(Chore::Wind(Clock::Second));
            self.ticking = true;
        }
        let ghost second = v@;
        assert(second =~= first + where_called(
            a0.working && !p0.ticking,
            Chore::Wind(Clock::Second),
        ));
        if a.quota_due {
            a.quota_due = false;
            v.push(Chore::Wind(Clock::Plan(Until::AfterTurn)));
        }
        let ghost third = v@;
        assert(third =~= second + where_called(
            a0.quota_due,
            Chore::Wind(Clock::Plan(Until::AfterTurn)),
        ));
        if a.pending_ui && !self.armed {
            v.push(Chore::Wind(Clock::Frame));
            self.armed = true;
        }
        assert(v@ =~= third + where_called(
            a0.pending_ui && !p0.armed,
            Chore::Wind(Clock::Frame),
        ));
        v
    }

    /// A clock has run out. Frames and seconds may be set again, half a binding is over, and a plan
    /// is asked again after the idle interval, whatever had set its clock: a turn ending shortens the
    /// next wait only.
    pub fn ran_out(&mut self, c: Clock, a: &mut After) -> (r: Vec<Chore>)
        ensures
            r@ == due_of(c),
            *final(self) == (match c {
                Clock::Frame => Pulse { armed: false, ..*old(self) },
                Clock::Second => Pulse { ticking: false, ..*old(self) },
                Clock::Keys(_) => Pulse { waiting: false, ..*old(self) },
                Clock::Plan(_) => *old(self),
            }),
            *final(a) == (match c {
                Clock::Keys(_) => After { keys_pending: false, ..*old(a) },
                Clock::Plan(_) => After { quota_due: false, ..*old(a) },
                _ => *old(a),
            }),
    {
        let mut v: Vec<Chore> = Vec::new();
        match c {
            Clock::Frame => {
                self.armed = false;
                v.push(Chore::Flush);
            },
            Clock::Second => {
                self.ticking = false;
                v.push(Chore::DrawWorking);
                v.push(Chore::TickCards);
                v.push(Chore::TickFooter);
                v.push(Chore::ReportLive);
            },
            Clock::Keys(_) => {
                self.waiting = false;
                a.keys_pending = false;
                v.push(Chore::FlushKeys);
            },
            Clock::Plan(_) => {
                a.quota_due = false;
                v.push(Chore::RefreshQuota);
                v.push(Chore::Wind(Clock::Plan(Until::Idle)));
            },
        }
        assert(v@ =~= due_of(c));
        v
    }

    /// A plan was asked. Where it did not answer, how long to wait before it is asked again, in
    /// nanoseconds: twice as long each time, and hard where it said to slow down.
    pub fn polled(&mut self, answered: bool, throttled: bool, idle: u64, most: u64) -> (r: Option<
        u64,
    >)
        requires
            old(self).backoff < u32::MAX,
        ensures
            *final(self) == (Pulse {
                backoff: backoff_after(old(self).backoff, answered, throttled),
                ..*old(self)
            }),
            match r {
                None => answered,
                Some(wait) => !answered && wait == wait_after(
                    final(self).backoff as int,
                    idle as int,
                    most as int,
                ),
            },
    {
        if answered {
            self.backoff = 0;
            return None;
        }
        let next = self.backoff + 1;
        self.backoff = if throttled && next < 3 {
            3
        } else {
            next
        };
        let steps: u32 = if self.backoff > 6 {
            6
        } else {
            self.backoff
        };
        Some(doubled(idle, steps, most))
    }
}

/// How many times in a row a plan has not answered.
pub open spec fn backoff_after(was: u32, answered: bool, throttled: bool) -> u32 {
    if answered {
        0
    } else if throttled && was + 1 < 3 {
        3
    } else {
        (was + 1) as u32
    }
}

/// Something doubled so many times.
pub open spec fn times_two(n: int, steps: int) -> int
    decreases steps,
{
    if steps <= 0 {
        n
    } else {
        2 * times_two(n, steps - 1)
    }
}

/// How long a plan that has not answered so many times is left alone.
pub open spec fn wait_after(backoff: int, idle: int, most: int) -> int {
    let steps = if backoff > 6 {
        6
    } else {
        backoff
    };
    let wait = times_two(idle, steps);
    if wait < most {
        wait
    } else {
        most
    }
}

proof fn lemma_times_two(n: int, a: int, b: int)
    requires
        0 <= n,
        0 <= a <= b,
    ensures
        n <= times_two(n, a) <= times_two(n, b),
    decreases b,
{
    if a < b {
        lemma_times_two(n, a, b - 1);
    } else if a > 0 {
        lemma_times_two(n, a - 1, a - 1);
    }
}

/// A number doubled so many times, as far as a limit.
fn doubled(n: u64, steps: u32, most: u64) -> (r: u64)
    requires
        steps <= 6,
    ensures
        r == (if times_two(n as int, steps as int) < most {
            times_two(n as int, steps as int)
        } else {
            most as int
        }),
{
    let mut r: u64 = n;
    let mut i: u32 = 0;
    while i < steps
        invariant
            i <= steps,
            r == times_two(n as int, i as int),
        decreases steps - i,
    {
        proof {
            lemma_times_two(n as int, i + 1, steps as int);
        }
        if r > most / 2 {
            return most;
        }
        r = r * 2;
        i = i + 1;
    }
    if r < most {
        r
    } else {
        most
    }
}

/// A plan that keeps not answering is never asked sooner, and never left alone for longer than the
/// limit.
pub proof fn a_plan_that_does_not_answer_is_asked_less(backoff: int, idle: int, most: int)
    requires
        0 <= backoff,
        0 <= idle,
        0 <= most,
    ensures
        wait_after(backoff, idle, most) <= wait_after(backoff + 1, idle, most) <= most,
{
    if backoff < 6 {
        lemma_times_two(idle, backoff, backoff + 1);
    }
}

/// A frame that is on its way is never put off: however much happens before it, its clock is not set
/// again. Neither is that of the working line's second.
pub proof fn a_frame_is_never_put_off(p: Pulse, a: After, i: int)
    requires
        0 <= i < done_after(p, a).len(),
    ensures
        p.armed ==> done_after(p, a)[i] != Chore::Wind(Clock::Frame),
        p.ticking ==> done_after(p, a)[i] != Chore::Wind(Clock::Second),
{
}

/// What an event leaves behind is acted on once: after it the same things call for nothing more than
/// to be drawn.
pub proof fn nothing_is_done_twice(p: Pulse, a: After)
    ensures
        done_after(
            Pulse { ticking: p.ticking || a.working, armed: p.armed || a.pending_ui, ..p },
            After { detaching: None, keys_touched: false, quota_due: false, ..a },
        ).len() == 0,
{
}

/// A turn that ends shortens the next wait of a plan only: whatever had set its clock, it is set to
/// the idle interval when it runs out.
pub proof fn a_plan_goes_back_to_its_idle_interval(was: Until)
    ensures
        due_of(Clock::Plan(was)).last() == Chore::Wind(Clock::Plan(Until::Idle)),
{
}

/// Whether what is running is reported again: not more than once a second, unless the number of
/// turns has changed.
pub fn report_live(at: Option<u64>, then: usize, now_running: usize, now: u64) -> (r: bool)
    ensures
        r == !(at is Some && (now < at->0 || now - at->0 < 1_000_000_000) && then == now_running),
{
    let fresh = match at {
        Some(t) => now < t || now - t < 1_000_000_000,
        None => false,
    };
    !(fresh && then == now_running)
}

} // verus!
