//! What a stored conversation says about the calls in it: how each one went, and which of them the
//! summary of a turn counts.
//!
//! A result always comes after the call it answers, and a card's header is drawn when the call is
//! reached. So how a call went is read out of the whole conversation, and a header is right the first
//! time it is drawn.

use crate::host::cards::{Leg, ToolResult, ToolState};
use crate::host::looking::{lines_in, lines_written};
use crate::text::same_text;
use vstd::prelude::*;

verus! {

/// One piece of a stored conversation.
#[derive(Debug)]
pub enum Told {
    /// A picture the user attached.
    Picture,
    /// What the user typed.
    Question,
    /// What the model said.
    Answer,
    /// A tool call, by its name in the conversation.
    Call(String),
    /// Which call, and what it came back with.
    Result(String, ToolResult),
    /// What is not replayed.
    Hidden,
}

/// The last answer a conversation holds to a call.
pub open spec fn answer_to(history: Seq<Told>, id: Seq<char>) -> Option<ToolResult>
    decreases history.len(),
{
    if history.len() == 0 {
        None
    } else {
        match history.last() {
            Told::Result(of, r) => if of@ == id {
                Some(r)
            } else {
                answer_to(history.drop_last(), id)
            },
            _ => answer_to(history.drop_last(), id),
        }
    }
}

/// How a call went, as its card's header says it: whether it is back, whether it failed, and how many
/// lines it came back with.
#[derive(Debug, Clone, Copy, PartialEq, Eq, Structural)]
pub struct Standing {
    pub state: ToolState,
    pub output: Option<usize>,
}

/// How a call went, by the last answer there is to it.
pub open spec fn standing_of(history: Seq<Told>, id: Seq<char>) -> Standing {
    match answer_to(history, id) {
        None => Standing { state: ToolState::Running, output: None },
        Some(r) => Standing {
            state: if r.is_error {
                ToolState::Failed
            } else {
                ToolState::Done
            },
            output: Some(lines_written(r.content@) as usize),
        },
    }
}

/// How a call went.
pub fn standing(history: &Vec<Told>, id: &str) -> (r: Standing)
    ensures
        r == standing_of(history@, id@),
{
    let mut i: usize = history.len();
    assert(history@.take(i as int) =~= history@);
    while i > 0
        invariant
            i <= history@.len(),
            answer_to(history@.take(i as int), id@) == answer_to(history@, id@),
        decreases i,
    {
        assert(history@.take(i as int).drop_last() =~= history@.take(i - 1));
        if let Told::Result(of, r) = &history[i - 1] {
            if same_text(of.as_str(), id) {
                let state = if r.is_error {
                    ToolState::Failed
                } else {
                    ToolState::Done
                };
                return Standing { state, output: Some(lines_in(r.content.as_str())) };
            }
        }
        i = i - 1;
    }
    Standing { state: ToolState::Running, output: None }
}

/// How the calls on a card went, in order: what its header is drawn from, beside their names and what
/// they were asked with.
pub fn heads(history: &Vec<Told>, legs: &Vec<Leg>) -> (r: Vec<Standing>)
    ensures
        r@ == legs@.map_values(|l: Leg| standing_of(history@, l.id@)),
{
    let ghost want = legs@.map_values(|l: Leg| standing_of(history@, l.id@));
    let mut r: Vec<Standing> = Vec::new();
    let mut i: usize = 0;
    while i < legs.len()
        invariant
            i <= legs@.len(),
            want == legs@.map_values(|l: Leg| standing_of(history@, l.id@)),
            r@.len() == i,
            forall|j: int| 0 <= j < i ==> #[trigger] r@[j] == want[j],
        decreases legs@.len() - i,
    {
        r.push(standing(history, legs[i].id.as_str()));
        i = i + 1;
    }
    assert(r@ =~= want);
    r
}

/// Where a call of that name last stands among the first pieces.
pub open spec fn called_before(history: Seq<Told>, id: Seq<char>) -> Option<int>
    decreases history.len(),
{
    if history.len() == 0 {
        None
    } else {
        match history.last() {
            Told::Call(of) => if of@ == id {
                Some(history.len() - 1)
            } else {
                called_before(history.drop_last(), id)
            },
            _ => called_before(history.drop_last(), id),
        }
    }
}

/// Whether a turn begins with the last of these pieces. A picture and what is typed under it are one
/// question.
pub open spec fn begins_turn(history: Seq<Told>) -> bool {
    &&& history.last() is Picture || history.last() is Question
    &&& !(history.len() > 1 && history[history.len() - 2] is Picture)
}

/// The calls whose changes have been counted by the end of some pieces, in the order they came back:
/// those of the turn that is being read that came back without an error and have a card.
pub open spec fn counted_calls(history: Seq<Told>, show_tools: bool) -> Seq<int>
    decreases history.len(),
{
    if history.len() == 0 || begins_turn(history) {
        seq![]
    } else {
        let before = counted_calls(history.drop_last(), show_tools);
        match history.last() {
            Told::Result(of, r) => match called_before(history.drop_last(), of@) {
                Some(i) => if show_tools && !r.is_error {
                    before.push(i)
                } else {
                    before
                },
                None => before,
            },
            _ => before,
        }
    }
}

/// Where a call of that name last stands among the first `n` pieces.
pub fn find_called(history: &Vec<Told>, n: usize, id: &str) -> (r: Option<usize>)
    requires
        n <= history@.len(),
    ensures
        match r {
            Some(i) => i < n && called_before(history@.take(n as int), id@) == Some(i as int),
            None => called_before(history@.take(n as int), id@) is None,
        },
{
    let mut i: usize = n;
    while i > 0
        invariant
            i <= n <= history@.len(),
            called_before(history@.take(i as int), id@) == called_before(
                history@.take(n as int),
                id@,
            ),
        decreases i,
    {
        assert(history@.take(i as int).drop_last() =~= history@.take(i - 1));
        if let Told::Call(of) = &history[i - 1] {
            if same_text(of.as_str(), id) {
                return Some(i - 1);
            }
        }
        i = i - 1;
    }
    None
}

/// The calls that the summary drawn before piece `n`, or after the last, is made of.
pub fn summed_calls(history: &Vec<Told>, n: usize, show_tools: bool) -> (r: Vec<usize>)
    requires
        n <= history@.len(),
    ensures
        r@.map_values(|i: usize| i as int) == counted_calls(history@.take(n as int), show_tools),
{
    let mut r: Vec<usize> = Vec::new();
    let mut k: usize = 0;
    assert(r@.map_values(|i: usize| i as int) =~= seq![]);
    assert(history@.take(0) =~= seq![]);
    while k < n
        invariant
            k <= n <= history@.len(),
            r@.map_values(|i: usize| i as int) == counted_calls(history@.take(k as int), show_tools),
        decreases n - k,
    {
        let ghost upto = history@.take(k + 1);
        proof {
            assert(upto.drop_last() =~= history@.take(k as int));
            assert(upto.last() == history@[k as int]);
            if k > 0 {
                assert(upto[k - 1] == history@[k - 1]);
            }
        }
        let user = match &history[k] {
            Told::Picture => true,
            Told::Question => true,
            _ => false,
        };
        let after_picture = k > 0 && match &history[k - 1] {
            Told::Picture => true,
            _ => false,
        };
        if user && !after_picture {
            r = Vec::new();
            assert(r@.map_values(|i: usize| i as int) =~= seq![]);
        } else if let Told::Result(of, result) = &history[k] {
            if let Some(i) = find_called(history, k, of.as_str()) {
                if show_tools && !result.is_error {
                    let ghost was = r@.map_values(|i: usize| i as int);
                    r.push(i);
                    assert(r@.map_values(|i: usize| i as int) =~= was.push(i as int));
                }
            }
        }
        k = k + 1;
    }
    r
}

/// A call that is back is never drawn as if it were running, nor one that is not as if it were back:
/// it is drawn as running exactly where the conversation holds no answer to it.
pub proof fn only_an_unanswered_call_is_running(history: Seq<Told>, id: Seq<char>)
    ensures
        (standing_of(history, id).state is Running) == (forall|i: int|
            0 <= i < history.len() ==> !(#[trigger] history[i] is Result && history[i]->Result_0@
                == id)),
    decreases history.len(),
{
    if history.len() > 0 {
        let less = history.drop_last();
        only_an_unanswered_call_is_running(less, id);
        let n = history.len() - 1;
        assert(history[n] == history.last());
        let answers = history.last() is Result && history.last()->Result_0@ == id;
        if !answers && standing_of(less, id).state is Running {
            assert forall|i: int| 0 <= i < history.len() implies !(#[trigger] history[i] is Result
                && history[i]->Result_0@ == id) by {
                if i < n {
                    assert(less[i] == history[i]);
                }
            }
        } else if !answers {
            let i = choose|i: int|
                0 <= i < less.len() && #[trigger] less[i] is Result && less[i]->Result_0@ == id;
            assert(history[i] == less[i]);
        }
    }
}

/// What a summary counts is a call of the turn it closes or of one before, never one that failed or
/// has no card, and a question starts from nothing.
pub proof fn a_summary_counts_what_came_back(history: Seq<Told>, show_tools: bool, k: int)
    requires
        0 <= k < counted_calls(history, show_tools).len(),
    ensures
        show_tools,
        history.len() > 0 && !begins_turn(history),
        0 <= counted_calls(history, show_tools)[k] < history.len(),
        history[counted_calls(history, show_tools)[k]] is Call,
    decreases history.len(),
{
    let less = history.drop_last();
    let before = counted_calls(less, show_tools);
    if k < before.len() {
        a_summary_counts_what_came_back(less, show_tools, k);
    } else {
        lemma_called(less, history.last()->Result_0@);
    }
}

proof fn lemma_called(history: Seq<Told>, id: Seq<char>)
    ensures
        match called_before(history, id) {
            Some(i) => 0 <= i < history.len() && history[i] is Call,
            None => true,
        },
    decreases history.len(),
{
    if history.len() > 0 {
        lemma_called(history.drop_last(), id);
    }
}

} // verus!
