//! Small decisions of reading: what a copy covers, what a search says, what is still out, and what
//! is drawn again when you come back to a conversation.

use crate::host::calls::{quoted, quoted_of};
use crate::host::cards::{Card, Leg, ToolState};
use crate::host::reading::{Motion, SelectShape};
use crate::host::rounds::{Said, Task, TaskStatus};
use crate::host::swarm::text_of;
use crate::host::view::{copied_said, is_destination, say_copied, takes_rows};
use crate::notify::MessageLevel;
use crate::text::{chars_of, same_text, texts, trim_end, trim_end_of};
use crate::words::{lines, lines_of, slices};
use vstd::prelude::*;

verus! {

// ---- copying what a motion covers -------------------------------------------

/// What a copy covers.
#[derive(Debug, Clone, Copy)]
pub enum Yank {
    /// From a row to before another, and what they are called.
    Rows(usize, usize, &'static str),
    /// From a place to another.
    Text((usize, usize), (usize, usize)),
}

/// Copy what a motion covers, from where the cursor is to where it would have gone. A motion that
/// spans rows takes whole ones: `yj` is two lines rather than two ragged halves of them.
pub fn yank_over(m: Motion, from: (usize, usize), to: (usize, usize)) -> (r: Yank)
    requires
        from.0 < usize::MAX,
        to.0 < usize::MAX,
    ensures
        r == (if m is Up || m is Down || is_destination(m) {
            if from.0 == to.0 {
                Yank::Rows(from.0, (from.0 + 1) as usize, "the line")
            } else if from.0 < to.0 {
                Yank::Rows(from.0, (to.0 + 1) as usize, "the lines")
            } else {
                Yank::Rows(to.0, (from.0 + 1) as usize, "the lines")
            }
        } else {
            Yank::Text(from, to)
        }),
        // Rows are whole, from the upper of the two to the lower, both of them included.
        match r {
            Yank::Rows(a, b, _) => a <= from.0 < b && a <= to.0 < b && (a == from.0 || a == to.0)
                && (b == from.0 + 1 || b == to.0 + 1),
            Yank::Text(a, b) => a == from && b == to,
        },
{
    let rows = takes_rows(m);
    if !rows {
        return Yank::Text(from, to);
    }
    if from.0 == to.0 {
        Yank::Rows(from.0, from.0 + 1, "the line")
    } else if from.0 < to.0 {
        Yank::Rows(from.0, to.0 + 1, "the lines")
    } else {
        Yank::Rows(to.0, from.0 + 1, "the lines")
    }
}

/// Two places, the earlier first.
pub fn in_order(a: (usize, usize), b: (usize, usize)) -> (r: ((usize, usize), (usize, usize)))
    ensures
        r == (if a.0 < b.0 || (a.0 == b.0 && a.1 <= b.1) {
            (a, b)
        } else {
            (b, a)
        }),
        (r.0 == a && r.1 == b) || (r.0 == b && r.1 == a),
        r.0.0 < r.1.0 || (r.0.0 == r.1.0 && r.0.1 <= r.1.1),
{
    if a.0 < b.0 || (a.0 == b.0 && a.1 <= b.1) {
        (a, b)
    } else {
        (b, a)
    }
}

/// What is said of some text that was copied.
pub fn yank_text(text: &str, what: &str) -> (r: (MessageLevel, String))
    ensures
        if text@.len() == 0 {
            r.0 == MessageLevel::Warn && r.1@ == "nothing to copy"@
        } else {
            r.0 == MessageLevel::Info && r.1@ == copied_said(
                what@,
                if lines_of(text@).len() == 0 {
                    1
                } else {
                    lines_of(text@).len()
                },
            )
        },
{
    let cs = chars_of(text);
    if cs.len() == 0 {
        return (MessageLevel::Warn, "nothing to copy".to_owned());
    }
    let n = lines(cs.as_slice()).len();
    let n = if n == 0 {
        1
    } else {
        n
    };
    (MessageLevel::Info, say_copied(what, n))
}

// ---- what a search says -----------------------------------------------------

/// Where a search that goes on comes to, or what is said of it.
#[derive(Debug)]
pub enum Stepped {
    To((usize, usize)),
    Say(MessageLevel, String),
}

/// `n` and `N`: on to the next hit for whatever was last searched for.
pub fn search_step(query: &str, hit: Option<(usize, usize)>) -> (r: Stepped)
    ensures
        if query@.len() == 0 {
            r is Say && r->Say_0 == MessageLevel::Info && r->Say_1@
                == "nothing to search for yet \u{2014} `/` starts one"@
        } else {
            match hit {
                Some(at) => r == Stepped::To(at),
                None => r is Say && r->Say_0 == MessageLevel::Warn && r->Say_1@
                    == "no more matches for "@ + quoted_of(query@),
            }
        },
{
    if chars_of(query).len() == 0 {
        return Stepped::Say(
            MessageLevel::Info,
            "nothing to search for yet \u{2014} `/` starts one".to_owned(),
        );
    }
    match hit {
        Some(at) => Stepped::To(at),
        None => Stepped::Say(
            MessageLevel::Warn,
            crate::words::concat("no more matches for ", quoted(query).as_str()),
        ),
    }
}

/// `*` and `#`: on to where the word under the cursor stands next.
pub fn search_word(word: Option<&str>, hit: Option<(usize, usize)>) -> (r: Stepped)
    ensures
        match word {
            None => r is Say && r->Say_0 == MessageLevel::Info && r->Say_1@
                == "no word under the cursor"@,
            Some(w) => match hit {
                Some(at) => r == Stepped::To(at),
                None => r is Say && r->Say_0 == MessageLevel::Warn && r->Say_1@
                    == "only match for "@ + quoted_of(w@),
            },
        },
{
    match word {
        None => Stepped::Say(MessageLevel::Info, "no word under the cursor".to_owned()),
        Some(w) => match hit {
            Some(at) => Stepped::To(at),
            None => Stepped::Say(
                MessageLevel::Warn,
                crate::words::concat("only match for ", quoted(w).as_str()),
            ),
        },
    }
}

/// Why the card under the cursor is not opened, if it is not: there is none, or it is still running.
pub fn toggle_card_here(card: Option<bool>) -> (r: Option<&'static str>)
    ensures
        r == (match card {
            None => Some("the cursor is not on a tool call"),
            Some(settled) => if settled {
                None
            } else {
                Some("still running \u{2014} nothing to show yet")
            },
        }),
{
    match card {
        None => Some("the cursor is not on a tool call"),
        Some(settled) => if settled {
            None
        } else {
            Some("still running \u{2014} nothing to show yet")
        },
    }
}

// ---- what is still out ------------------------------------------------------

/// A sub-agent as it is listed.
#[derive(Debug)]
pub struct TaskRow {
    pub title: String,
    pub role: Option<String>,
    /// How long it has been out, in nanoseconds.
    pub since: Option<u64>,
    pub live: bool,
}

/// A sub-agent as it is listed, as plain values.
pub struct TaskLine {
    pub title: Seq<char>,
    pub role: Option<Seq<char>>,
    pub since: Option<u64>,
    pub live: bool,
}

pub open spec fn task_lines(v: Seq<TaskRow>) -> Seq<TaskLine> {
    v.map_values(
        |t: TaskRow|
            TaskLine {
                title: t.title@,
                role: text_of(t.role),
                since: t.since,
                live: t.live,
            },
    )
}

/// Whether a sub-agent belongs in the list.
pub open spec fn is_out(t: Task) -> bool {
    t.status == TaskStatus::Running || t.status == TaskStatus::Backgrounded
}

/// How a sub-agent is listed at `now`. With no clock it is one that a turn leaves behind: a frozen
/// number beside something that is still going is worse than no number.
pub open spec fn task_line(t: Task, now: Option<u64>) -> TaskLine {
    TaskLine {
        title: t.title@,
        role: text_of(t.role),
        since: match now {
            Some(n) => Some(
                if n < t.since {
                    0u64
                } else {
                    (n - t.since) as u64
                },
            ),
            None => None,
        },
        live: now is Some && t.status == TaskStatus::Running,
    }
}

/// The sub-agents that are out, in the order they started.
pub open spec fn out_at(v: Seq<Task>, now: Option<u64>) -> Seq<TaskLine>
    decreases v.len(),
{
    if v.len() == 0 {
        seq![]
    } else {
        let rest = out_at(v.drop_last(), now);
        if is_out(v.last()) {
            rest.push(task_line(v.last(), now))
        } else {
            rest
        }
    }
}

/// The sub-agents that are out, for the footer under the working line or, with no clock, for the
/// rows a turn leaves behind.
pub fn tasks_left_running(tasks: &Vec<Task>, now: Option<u64>) -> (r: Vec<TaskRow>)
    ensures
        task_lines(r@) == out_at(tasks@, now),
{
    let mut r: Vec<TaskRow> = Vec::new();
    let mut i: usize = 0;
    assert(task_lines(r@) =~= out_at(tasks@.take(0), now));
    while i < tasks.len()
        invariant
            i <= tasks@.len(),
            task_lines(r@) == out_at(tasks@.take(i as int), now),
        decreases tasks@.len() - i,
    {
        proof {
            assert(tasks@.take(i + 1).drop_last() =~= tasks@.take(i as int));
            assert(tasks@.take(i + 1).last() == tasks@[i as int]);
        }
        let t = &tasks[i];
        if t.listed() {
            let role = match &t.role {
                Some(s) => Some(s.clone()),
                None => None,
            };
            let since = match now {
                Some(n) => Some(
                    if n < t.since {
                        0
                    } else {
                        n - t.since
                    },
                ),
                None => None,
            };
            let live = now.is_some() && t.status == TaskStatus::Running;
            let ghost was = task_lines(r@);
            r.push(TaskRow { title: t.title.clone(), role, since, live });
            assert(task_lines(r@) =~= was.push(task_line(*t, now)));
        }
        i = i + 1;
    }
    assert(tasks@.take(i as int) =~= tasks@);
    r
}

/// Whether the footer has a clock on it: only sub-agents do.
pub fn tick_footer(tasks: &Vec<Task>) -> (r: bool)
    ensures
        r == exists|i: int| 0 <= i < tasks@.len() && is_out(#[trigger] tasks@[i]),
{
    let mut i: usize = 0;
    while i < tasks.len()
        invariant
            i <= tasks@.len(),
            forall|j: int| 0 <= j < i ==> !is_out(#[trigger] tasks@[j]),
        decreases tasks@.len() - i,
    {
        if tasks[i].listed() {
            return true;
        }
        i = i + 1;
    }
    false
}

/// Whether a card has a clock on it: a call that was seen to start and has not come back.
pub open spec fn is_live(c: Card) -> bool {
    exists|k: int|
        0 <= k < c.legs@.len() && (#[trigger] c.legs@[k]).result is None && c.legs@[k].started is Some
}

/// The cards with a clock on them.
pub open spec fn live_cards(v: Seq<Card>) -> Seq<int>
    decreases v.len(),
{
    if v.len() == 0 {
        seq![]
    } else {
        let rest = live_cards(v.drop_last());
        if is_live(v.last()) {
            rest.push(v.len() - 1)
        } else {
            rest
        }
    }
}

fn card_ticks(legs: &Vec<Leg>) -> (r: bool)
    ensures
        r == exists|k: int|
            0 <= k < legs@.len() && (#[trigger] legs@[k]).result is None && legs@[k].started is Some,
{
    let mut k: usize = 0;
    while k < legs.len()
        invariant
            k <= legs@.len(),
            forall|j: int|
                0 <= j < k ==> !((#[trigger] legs@[j]).result is None && legs@[j].started is Some),
        decreases legs@.len() - k,
    {
        if legs[k].result.is_none() && legs[k].started.is_some() {
            return true;
        }
        k = k + 1;
    }
    false
}

/// The cards whose header is drawn again every second. Only the header: a body that appeared would
/// end the answer that is still arriving.
pub fn tick_cards(cards: &Vec<Card>) -> (r: Vec<usize>)
    ensures
        r@.map_values(|i: usize| i as int) == live_cards(cards@),
{
    let mut r: Vec<usize> = Vec::new();
    let mut i: usize = 0;
    assert(r@.map_values(|i: usize| i as int) =~= live_cards(cards@.take(0)));
    while i < cards.len()
        invariant
            i <= cards@.len(),
            r@.map_values(|i: usize| i as int) == live_cards(cards@.take(i as int)),
        decreases cards@.len() - i,
    {
        proof {
            assert(cards@.take(i + 1).drop_last() =~= cards@.take(i as int));
            assert(cards@.take(i + 1).last() == cards@[i as int]);
        }
        if card_ticks(&cards[i].legs) {
            let ghost was = r@.map_values(|i: usize| i as int);
            r.push(i);
            assert(r@.map_values(|i: usize| i as int) =~= was.push(i as int));
        }
        i = i + 1;
    }
    assert(cards@.take(i as int) =~= cards@);
    r
}

/// How many lines a tool wrote. Blank lines at the end are not lines anybody read.
pub open spec fn lines_written(content: Seq<char>) -> nat {
    lines_of(trim_end_of(content)).len()
}

/// How many lines a tool wrote.
pub fn lines_in(content: &str) -> (r: usize)
    ensures
        r == lines_written(content@),
{
    let cs = chars_of(content);
    let body = trim_end(cs.as_slice());
    let ls = lines(body);
    assert(slices(ls@).len() == ls@.len());
    ls.len()
}

/// What a call on a card shows.
#[derive(Debug)]
pub struct Head {
    pub name: String,
    pub input: String,
    pub state: ToolState,
    /// How long it took, or has taken so far, in nanoseconds.
    pub took: Option<u64>,
    pub exit: Option<i64>,
    /// How many lines it came back with.
    pub output: Option<usize>,
}

/// Whether this is what a call shows at `now`.
pub open spec fn heads(h: Head, l: Leg, now: u64) -> bool {
    &&& h.name@ == l.name@
    &&& h.input@ == l.input@
    &&& h.state == l.stands()
    &&& h.took == l.so_far(now)
    &&& h.exit == l.exit
    &&& match l.result {
        Some(r) => h.output is Some && h.output->0 == lines_written(r.content@),
        None => h.output is None,
    }
}

/// What the calls on a card show. A finished call keeps whatever it took; a running one is timed from
/// its start.
pub fn card_heads(card: &Card, now: u64) -> (r: Vec<Head>)
    ensures
        r@.len() == card.legs@.len(),
        forall|i: int| 0 <= i < r@.len() ==> heads(#[trigger] r@[i], card.legs@[i], now),
{
    let mut r: Vec<Head> = Vec::new();
    let mut i: usize = 0;
    while i < card.legs.len()
        invariant
            i <= card.legs@.len(),
            r@.len() == i,
            forall|j: int| 0 <= j < i ==> heads(#[trigger] r@[j], card.legs@[j], now),
        decreases card.legs@.len() - i,
    {
        let leg = &card.legs[i];
        let output = match &leg.result {
            Some(x) => Some(lines_in(x.content.as_str())),
            None => None,
        };
        r.push(
            Head {
                name: leg.name.clone(),
                input: leg.input.clone(),
                state: leg.state(),
                took: leg.clock(now),
                exit: leg.exit,
                output,
            },
        );
        i = i + 1;
    }
    r
}

/// The selection that was last given up.
#[derive(Debug, Clone, Copy)]
pub struct LastSelect {
    pub anchor: (usize, usize),
    pub cursor: (usize, usize),
    pub shape: SelectShape,
}

/// Give a selection up, remembering where it was.
pub fn drop_selection(
    last: &mut Option<LastSelect>,
    anchor: Option<(usize, usize)>,
    cursor: (usize, usize),
    shape: SelectShape,
)
    ensures
        *final(last) == (match anchor {
            Some(a) => Some(LastSelect { anchor: a, cursor, shape }),
            None => *old(last),
        }),
{
    if let Some(a) = anchor {
        *last = Some(LastSelect { anchor: a, cursor, shape });
    }
}

// ---- coming back ------------------------------------------------------------

/// Something drawn again, by which of the things said it is.
#[derive(Debug, Clone, Copy, PartialEq, Eq, Structural)]
pub enum Again {
    /// More of the answer. It is left open, since the next word may continue it.
    Answer(usize),
    /// A card for a call.
    Card(usize),
    /// What a call came back with.
    Result(usize),
}

/// Whether something said is a call of that name.
pub open spec fn is_call(s: Said, id: Seq<char>) -> bool {
    match s {
        Said::Tool(c, _) => c.id@ == id,
        Said::Text(_) => false,
    }
}

/// Whether a call has a card already: it is in the conversation, or it came before.
pub open spec fn has_card(drawn: Seq<Seq<char>>, said: Seq<Said>, id: Seq<char>) -> bool {
    drawn.contains(id) || exists|k: int| 0 <= k < said.len() && is_call(#[trigger] said[k], id)
}

/// What is drawn again of what a turn has said so far.
pub open spec fn drawn_again(said: Seq<Said>, drawn: Seq<Seq<char>>) -> Seq<Again>
    decreases said.len(),
{
    if said.len() == 0 {
        seq![]
    } else {
        let n = (said.len() - 1) as usize;
        let before = said.drop_last();
        drawn_again(before, drawn) + (match said.last() {
            Said::Text(t) => if t@.len() == 0 {
                seq![]
            } else {
                seq![Again::Answer(n)]
            },
            Said::Tool(c, result) => (if has_card(drawn, before, c.id@) {
                seq![]
            } else {
                seq![Again::Card(n)]
            }) + (if result is Some {
                seq![Again::Result(n)]
            } else {
                seq![]
            }),
        })
    }
}

fn carded(said: &Vec<Said>, n: usize, drawn: &Vec<String>, id: &str) -> (r: bool)
    requires
        n <= said@.len(),
    ensures
        r == has_card(texts(drawn@), said@.take(n as int), id@),
{
    let ghost before = said@.take(n as int);
    let mut i: usize = 0;
    while i < drawn.len()
        invariant
            i <= drawn@.len(),
            forall|j: int| 0 <= j < i ==> (#[trigger] drawn@[j])@ != id@,
        decreases drawn@.len() - i,
    {
        if same_text(drawn[i].as_str(), id) {
            assert(texts(drawn@)[i as int] == id@);
            return true;
        }
        i = i + 1;
    }
    proof {
        if texts(drawn@).contains(id@) {
            let k = choose|k: int| 0 <= k < texts(drawn@).len() && texts(drawn@)[k] == id@;
            assert(drawn@[k]@ != id@);
        }
    }
    let mut k: usize = 0;
    while k < n
        invariant
            k <= n <= said@.len(),
            before == said@.take(n as int),
            !texts(drawn@).contains(id@),
            forall|j: int| 0 <= j < k ==> !is_call(#[trigger] before[j], id@),
        decreases n - k,
    {
        assert(before[k as int] == said@[k as int]);
        let hit = match &said[k] {
            Said::Tool(c, _) => same_text(c.id.as_str(), id),
            Said::Text(_) => false,
        };
        if hit {
            assert(is_call(before[k as int], id@));
            return true;
        }
        k = k + 1;
    }
    false
}

/// What is drawn again of what a turn has said so far, when you come back to its conversation.
/// `drawn` are the calls the conversation itself already shows: drawing a second card would say that
/// it happened twice.
pub fn replay_round(said: &Vec<Said>, drawn: &Vec<String>) -> (r: Vec<Again>)
    ensures
        r@ == drawn_again(said@, texts(drawn@)),
{
    let mut r: Vec<Again> = Vec::new();
    let mut i: usize = 0;
    assert(r@ =~= drawn_again(said@.take(0), texts(drawn@)));
    while i < said.len()
        invariant
            i <= said@.len(),
            r@ == drawn_again(said@.take(i as int), texts(drawn@)),
        decreases said@.len() - i,
    {
        let ghost was = r@;
        proof {
            assert(said@.take(i + 1).drop_last() =~= said@.take(i as int));
            assert(said@.take(i + 1).last() == said@[i as int]);
        }
        match &said[i] {
            Said::Text(t) => {
                if chars_of(t.as_str()).len() > 0 {
                    r.push(Again::Answer(i));
                }
            },
            Said::Tool(c, result) => {
                if !carded(said, i, drawn, c.id.as_str()) {
                    r.push(Again::Card(i));
                }
                if result.is_some() {
                    r.push(Again::Result(i));
                }
            },
        }
        assert(r@ =~= drawn_again(said@.take(i + 1), texts(drawn@)));
        i = i + 1;
    }
    assert(said@.take(i as int) =~= said@);
    r
}

proof fn lemma_again(said: Seq<Said>, drawn: Seq<Seq<char>>, i: int)
    requires
        said.len() <= usize::MAX,
        0 <= i < drawn_again(said, drawn).len(),
    ensures
        match drawn_again(said, drawn)[i] {
            Again::Card(n) => n < said.len() && said[n as int] is Tool && !has_card(
                drawn,
                said.take(n as int),
                said[n as int]->Tool_0.id@,
            ),
            Again::Answer(n) => n < said.len() && said[n as int] is Text,
            Again::Result(n) => n < said.len() && said[n as int] is Tool,
        },
    decreases said.len(),
{
    let before = said.drop_last();
    let first = drawn_again(before, drawn);
    if i < first.len() {
        lemma_again(before, drawn, i);
        let n = match first[i] {
            Again::Card(n) => n,
            Again::Answer(n) => n,
            Again::Result(n) => n,
        };
        assert(before.take(n as int) =~= said.take(n as int));
        assert(before[n as int] == said[n as int]);
    } else {
        assert(said.take(said.len() - 1) =~= before);
    }
}

/// No call is drawn twice: a card that is drawn again is for a call that the conversation does not
/// show, and that nothing before it was a card for.
pub proof fn no_call_is_drawn_twice(said: Seq<Said>, drawn: Seq<Seq<char>>, i: int)
    requires
        said.len() <= usize::MAX,
        0 <= i < drawn_again(said, drawn).len(),
        drawn_again(said, drawn)[i] is Card,
    ensures
        ({
            let n = drawn_again(said, drawn)[i]->Card_0 as int;
            let id = said[n]->Tool_0.id@;
            &&& 0 <= n < said.len()
            &&& said[n] is Tool
            &&& !drawn.contains(id)
            &&& forall|k: int| 0 <= k < n ==> !is_call(#[trigger] said[k], id)
        }),
{
    lemma_again(said, drawn, i);
    let n = drawn_again(said, drawn)[i]->Card_0 as int;
    assert forall|k: int| 0 <= k < n implies !is_call(
        #[trigger] said[k],
        said[n]->Tool_0.id@,
    ) by {
        assert(said.take(n)[k] == said[k]);
    }
}

} // verus!
