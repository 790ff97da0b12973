//! What holds of a turn, whatever happens in it: what is drawn, kept, told and written down of each
//! thing it does, and in what order.

use crate::host::rounds::{
    activity_follows, after_activity, after_event, follows, is_leftover, kind_of, known_of,
    moves_footer, only_if, prompt_images, prompt_texts, record_after, round_in, same_plan,
    task_among, turn_of, turns_after, Activity, Around, Event, Happened, Prompt, Record, Round,
    Said, Step, Turn,
};
use crate::text::texts;
use crate::words::joined_with;
use vstd::prelude::*;

verus! {

/// How often a step is among some.
pub open spec fn how_often(v: Seq<Step>, s: Step) -> nat
    decreases v.len(),
{
    if v.len() == 0 {
        0
    } else {
        how_often(v.drop_last(), s) + (if v.last() == s {
            1nat
        } else {
            0
        })
    }
}

proof fn lemma_often_concat(a: Seq<Step>, b: Seq<Step>, s: Step)
    ensures
        how_often(a + b, s) == how_often(a, s) + how_often(b, s),
    decreases b.len(),
{
    if b.len() == 0 {
        assert(a + b =~= a);
    } else {
        lemma_often_concat(a, b.drop_last(), s);
        assert((a + b).drop_last() =~= a + b.drop_last());
        assert((a + b).last() == b.last());
    }
}

proof fn lemma_often_few(s: Step, a: Step, b: Step, c: Step, d: Step)
    ensures
        how_often(seq![], s) == 0,
        how_often(seq![a], s) == (if a == s {
            1nat
        } else {
            0
        }),
        how_often(seq![a, b], s) == how_often(seq![a], s) + (if b == s {
            1nat
        } else {
            0
        }),
        how_often(seq![a, b, c], s) == how_often(seq![a, b], s) + (if c == s {
            1nat
        } else {
            0
        }),
        how_often(seq![a, b, c, d], s) == how_often(seq![a, b, c], s) + (if d == s {
            1nat
        } else {
            0
        }),
{
    assert(seq![a].drop_last() =~= Seq::<Step>::empty());
    assert(seq![a, b].drop_last() =~= seq![a]);
    assert(seq![a, b, c].drop_last() =~= seq![a, b]);
    assert(seq![a, b, c, d].drop_last() =~= seq![a, b, c]);
}

/// Everything a turn does that can be seen is seen where its conversation is on screen, and only
/// there; everything that changes what is said is written down; and every plugin hears of what it is
/// to hear of. Each is done once, and nothing else is done.
pub proof fn each_step_is_taken_where_it_is_called_for(e: Event, a: Around, s: Step)
    ensures
        how_often(follows(e, a), s) == (if (match s {
            // What is drawn.
            Step::DrawAnswer => e is Token && a.on_screen,
            Step::DrawThinking => e is Thinking && a.on_screen && a.show_thinking,
            Step::DrawCard => e is ToolStarted && a.on_screen,
            Step::FinishCard => e is ToolFinished && a.on_screen,
            Step::DrawWorking => (e is ToolStarted || e is ToolFinished || e is Steered)
                && a.on_screen,
            Step::DrawQuestion => e is Steered && a.on_screen,
            Step::ScrollToEnd => e is Steered && a.on_screen,
            Step::CloseTurn => e is TurnEnded && a.on_screen,
            Step::RedrawTranscript => e is TurnStarted && a.on_screen && a.was_cut_off,
            Step::RefreshComposer => e is TurnEnded || (e is Steered && a.on_screen),
            // What is written down.
            Step::SaveOne => e is TurnStarted || e is Committed,
            Step::SaveAll => e is TurnEnded,
            Step::Tally => e is ToolFinished && !a.failed,
            // Who is told.
            Step::StreamOut => a.watched && (e is TurnStarted || e is Token || e is Thinking
                || e is TurnEnded || e is Activity),
            Step::Broadcast => e is TurnStarted || e is Token || e is Thinking || e is ToolStarted
                || e is ToolFinished || e is TurnEnded,
            Step::Say => e is Notice,
            // What comes of it.
            Step::QuotaDue => e is TurnEnded,
            Step::StartNext => e is TurnEnded && a.queued,
            Step::HandleActivity => e is Activity,
            _ => false,
        }) {
            1nat
        } else {
            0
        }),
{
    let n = Seq::<Step>::empty();
    let out = only_if(a.watched, seq![Step::StreamOut]);
    lemma_often_few(s, Step::StreamOut, s, s, s);
    match e {
        Event::TurnStarted => {
            let x = only_if(a.was_cut_off && a.on_screen, seq![Step::RedrawTranscript]);
            lemma_often_few(s, Step::SaveOne, s, s, s);
            lemma_often_few(s, Step::RedrawTranscript, s, s, s);
            lemma_often_few(s, Step::Broadcast, s, s, s);
            lemma_often_concat(seq![Step::SaveOne], x, s);
            lemma_often_concat(seq![Step::SaveOne] + x, out, s);
            lemma_often_concat(seq![Step::SaveOne] + x + out, seq![Step::Broadcast], s);
        },
        Event::Token => {
            let x = only_if(a.on_screen, seq![Step::DrawAnswer]);
            lemma_often_few(s, Step::DrawAnswer, s, s, s);
            lemma_often_few(s, Step::Broadcast, s, s, s);
            lemma_often_concat(x, out, s);
            lemma_often_concat(x + out, seq![Step::Broadcast], s);
        },
        Event::Thinking => {
            let x = only_if(a.on_screen && a.show_thinking, seq![Step::DrawThinking]);
            lemma_often_few(s, Step::DrawThinking, s, s, s);
            lemma_often_few(s, Step::Broadcast, s, s, s);
            lemma_often_concat(x, out, s);
            lemma_often_concat(x + out, seq![Step::Broadcast], s);
        },
        Event::ToolStarted => {
            let x = only_if(a.on_screen, seq![Step::DrawCard, Step::DrawWorking]);
            lemma_often_few(s, Step::DrawCard, Step::DrawWorking, s, s);
            lemma_often_few(s, Step::Broadcast, s, s, s);
            lemma_often_concat(x, seq![Step::Broadcast], s);
        },
        Event::ToolFinished => {
            let x = only_if(!a.failed, seq![Step::Tally]);
            let y = only_if(a.on_screen, seq![Step::FinishCard, Step::DrawWorking]);
            lemma_often_few(s, Step::Tally, s, s, s);
            lemma_often_few(s, Step::FinishCard, Step::DrawWorking, s, s);
            lemma_often_few(s, Step::Broadcast, s, s, s);
            lemma_often_concat(x, y, s);
            lemma_often_concat(x + y, seq![Step::Broadcast], s);
        },
        Event::TurnEnded => {
            let x = only_if(a.on_screen, seq![Step::CloseTurn]);
            let y = only_if(a.queued, seq![Step::StartNext]);
            let all = seq![Step::SaveAll];
            let told = seq![Step::Broadcast, Step::QuotaDue];
            lemma_often_few(s, Step::CloseTurn, s, s, s);
            lemma_often_few(s, Step::SaveAll, s, s, s);
            lemma_often_few(s, Step::Broadcast, Step::QuotaDue, s, s);
            lemma_often_few(s, Step::StartNext, s, s, s);
            lemma_often_few(s, Step::RefreshComposer, s, s, s);
            lemma_often_concat(x, all, s);
            lemma_often_concat(x + all, out, s);
            lemma_often_concat(x + all + out, told, s);
            lemma_often_concat(x + all + out + told, y, s);
            lemma_often_concat(x + all + out + told + y, seq![Step::RefreshComposer], s);
        },
        Event::Committed => {
            lemma_often_few(s, Step::SaveOne, s, s, s);
        },
        Event::Steered => {
            lemma_often_few(
                s,
                Step::DrawQuestion,
                Step::DrawWorking,
                Step::RefreshComposer,
                Step::ScrollToEnd,
            );
        },
        Event::Activity => {
            lemma_often_few(s, Step::HandleActivity, s, s, s);
            lemma_often_concat(out, seq![Step::HandleActivity], s);
        },
        Event::Notice => {
            lemma_often_few(s, Step::Say, s, s, s);
        },
    }
}

/// Whether a step is never taken after another: the call that came back is counted, and the turn that
/// ended is closed, before anything is written down; what is written down is, before anybody is told;
/// what the turn did is drawn before the line that says what it does now; and the next turn starts
/// only when the last one is done with.
pub open spec fn stage(s: Step) -> int {
    match s {
        Step::Tally => 0,
        Step::CloseTurn => 1,
        Step::SaveOne => 2,
        Step::SaveAll => 2,
        Step::RedrawTranscript => 3,
        Step::DrawAnswer => 3,
        Step::DrawThinking => 3,
        Step::DrawCard => 3,
        Step::FinishCard => 3,
        Step::DrawQuestion => 3,
        Step::DrawWorking => 4,
        Step::StreamOut => 5,
        Step::Broadcast => 6,
        Step::HandleActivity => 6,
        Step::Say => 6,
        Step::QuotaDue => 7,
        Step::StartNext => 8,
        Step::RefreshComposer => 9,
        _ => 10,
    }
}

/// Whether steps come stage by stage.
pub open spec fn in_stages(v: Seq<Step>) -> bool {
    forall|i: int, j: int|
        0 <= i < j < v.len() ==> stage(#[trigger] v[i]) < stage(#[trigger] v[j])
}

proof fn lemma_stages_concat(a: Seq<Step>, b: Seq<Step>, k: int)
    requires
        in_stages(a),
        in_stages(b),
        forall|i: int| 0 <= i < a.len() ==> stage(#[trigger] a[i]) <= k,
        forall|i: int| 0 <= i < b.len() ==> stage(#[trigger] b[i]) > k,
    ensures
        in_stages(a + b),
{
    let v = a + b;
    assert forall|i: int, j: int| 0 <= i < j < v.len() implies stage(#[trigger] v[i]) < stage(
        #[trigger] v[j],
    ) by {
        if j < a.len() {
            assert(v[i] == a[i] && v[j] == a[j]);
        } else if i >= a.len() {
            assert(v[i] == b[i - a.len()] && v[j] == b[j - a.len()]);
        } else {
            assert(v[i] == a[i] && v[j] == b[j - a.len()]);
        }
    }
}

/// What follows from an event comes in one order: see [`stage`].
#[verifier::rlimit(60)]
pub proof fn the_steps_of_a_turn_come_in_one_order(e: Event, a: Around)
    ensures
        in_stages(follows(e, a)),
{
    let out = only_if(a.watched, seq![Step::StreamOut]);
    match e {
        Event::TurnEnded => {
            let x = only_if(a.on_screen, seq![Step::CloseTurn]);
            let y = only_if(a.queued, seq![Step::StartNext]);
            let all = seq![Step::SaveAll];
            let told = seq![Step::Broadcast, Step::QuotaDue];
            lemma_stages_concat(x, all, 1);
            lemma_stages_concat(x + all, out, 2);
            lemma_stages_concat(x + all + out, told, 5);
            lemma_stages_concat(x + all + out + told, y, 7);
            lemma_stages_concat(x + all + out + told + y, seq![Step::RefreshComposer], 8);
        },
        Event::TurnStarted => {
            let x = only_if(a.was_cut_off && a.on_screen, seq![Step::RedrawTranscript]);
            lemma_stages_concat(seq![Step::SaveOne], x, 2);
            lemma_stages_concat(seq![Step::SaveOne] + x, out, 4);
            lemma_stages_concat(seq![Step::SaveOne] + x + out, seq![Step::Broadcast], 5);
        },
        Event::ToolFinished => {
            let x = only_if(!a.failed, seq![Step::Tally]);
            let y = only_if(a.on_screen, seq![Step::FinishCard, Step::DrawWorking]);
            lemma_stages_concat(x, y, 0);
            lemma_stages_concat(x + y, seq![Step::Broadcast], 5);
        },
        Event::Token => {
            let x = only_if(a.on_screen, seq![Step::DrawAnswer]);
            lemma_stages_concat(x, out, 4);
            lemma_stages_concat(x + out, seq![Step::Broadcast], 5);
        },
        Event::Thinking => {
            let x = only_if(a.on_screen && a.show_thinking, seq![Step::DrawThinking]);
            lemma_stages_concat(x, out, 4);
            lemma_stages_concat(x + out, seq![Step::Broadcast], 5);
        },
        _ => {},
    }
}

/// What is done about something a turn did is that of its own kind, with what its conversation
/// remembers: an answer is drawn for words, a card for a call, and a call that failed counts for
/// nothing.
pub proof fn what_happened_is_what_is_drawn(h: Happened, a: Around, record: Record, queued: bool)
    ensures
        ({
            let v = follows(kind_of(h), known_of(a, h, record, queued));
            &&& how_often(v, Step::DrawAnswer) == 1 <==> h is Token && a.on_screen
            &&& how_often(v, Step::DrawThinking) == 1 <==> h is Thinking && a.on_screen
                && a.show_thinking
            &&& how_often(v, Step::DrawCard) == 1 <==> h is ToolStarted && a.on_screen
            &&& how_often(v, Step::FinishCard) == 1 <==> h is ToolFinished && a.on_screen
            &&& how_often(v, Step::DrawQuestion) == 1 <==> h is Steered && a.on_screen
            &&& how_often(v, Step::CloseTurn) == 1 <==> h is TurnEnded && a.on_screen
            &&& how_often(v, Step::RedrawTranscript) == 1 <==> h is TurnStarted && a.on_screen
                && record.interrupted
            &&& how_often(v, Step::Tally) == 1 <==> (match h {
                Happened::ToolFinished(_, r) => !r.is_error,
                _ => false,
            })
            &&& how_often(v, Step::SaveOne) == 1 <==> h is TurnStarted || h is Committed
            &&& how_often(v, Step::SaveAll) == 1 <==> h is TurnEnded
            &&& how_often(v, Step::StartNext) == 1 <==> h is TurnEnded && queued
            &&& how_often(v, Step::HandleActivity) == 1 <==> h is Activity
            &&& how_often(v, Step::Say) == 1 <==> h is Notice
            &&& how_often(v, Step::StreamOut) == 1 <==> a.watched && (h is TurnStarted
                || h is Token || h is Thinking || h is TurnEnded || h is Activity)
        }),
{
    let e = kind_of(h);
    let k = known_of(a, h, record, queued);
    each_step_is_taken_where_it_is_called_for(e, k, Step::DrawAnswer);
    each_step_is_taken_where_it_is_called_for(e, k, Step::DrawThinking);
    each_step_is_taken_where_it_is_called_for(e, k, Step::DrawCard);
    each_step_is_taken_where_it_is_called_for(e, k, Step::FinishCard);
    each_step_is_taken_where_it_is_called_for(e, k, Step::DrawQuestion);
    each_step_is_taken_where_it_is_called_for(e, k, Step::CloseTurn);
    each_step_is_taken_where_it_is_called_for(e, k, Step::RedrawTranscript);
    each_step_is_taken_where_it_is_called_for(e, k, Step::Tally);
    each_step_is_taken_where_it_is_called_for(e, k, Step::SaveOne);
    each_step_is_taken_where_it_is_called_for(e, k, Step::SaveAll);
    each_step_is_taken_where_it_is_called_for(e, k, Step::StartNext);
    each_step_is_taken_where_it_is_called_for(e, k, Step::HandleActivity);
    each_step_is_taken_where_it_is_called_for(e, k, Step::Say);
    each_step_is_taken_where_it_is_called_for(e, k, Step::StreamOut);
}

// ---- what is kept -----------------------------------------------------------

/// The words among some things said, run together.
pub open spec fn words_said(v: Seq<Said>) -> Seq<char>
    decreases v.len(),
{
    if v.len() == 0 {
        seq![]
    } else {
        words_said(v.drop_last()) + (match v.last() {
            Said::Text(t) => t@,
            Said::Tool(_, _) => seq![],
        })
    }
}

/// The calls among some things said, in order, by their names.
pub open spec fn calls_said(v: Seq<Said>) -> Seq<Seq<char>>
    decreases v.len(),
{
    if v.len() == 0 {
        seq![]
    } else {
        match v.last() {
            Said::Text(_) => calls_said(v.drop_last()),
            Said::Tool(c, _) => calls_said(v.drop_last()).push(c.id@),
        }
    }
}

proof fn lemma_said_updated(v: Seq<Said>, i: int, s: Said)
    requires
        0 <= i < v.len(),
        v[i] is Tool,
        s is Tool,
        s->Tool_0 == v[i]->Tool_0,
    ensures
        words_said(v.update(i, s)) == words_said(v),
        calls_said(v.update(i, s)) == calls_said(v),
    decreases v.len(),
{
    let w = v.update(i, s);
    if i == v.len() - 1 {
        assert(w.drop_last() =~= v.drop_last());
    } else {
        assert(w.drop_last() =~= v.drop_last().update(i, s));
        assert(v.drop_last()[i] == v[i]);
        lemma_said_updated(v.drop_last(), i, s);
    }
}

proof fn lemma_call_said(said: Seq<Said>, id: Seq<char>)
    ensures
        match crate::host::rounds::call_said(said, id) {
            Some(i) => 0 <= i < said.len() && said[i] is Tool && said[i]->Tool_0.id@ == id && (
            forall|j: int|
                i < j < said.len() && #[trigger] said[j] is Tool ==> said[j]->Tool_0.id@ != id),
            None => forall|i: int|
                0 <= i < said.len() && #[trigger] said[i] is Tool ==> said[i]->Tool_0.id@ != id,
        },
    decreases said.len(),
{
    if said.len() > 0 {
        let less = said.drop_last();
        lemma_call_said(less, id);
        let from: int = match crate::host::rounds::call_said(said, id) {
            Some(i) => i + 1,
            None => 0,
        };
        assert forall|i: int| from <= i < said.len() && #[trigger] said[i] is Tool implies
            said[i]->Tool_0.id@ != id by {
            if i < less.len() {
                assert(less[i] == said[i]);
            }
        }
    }
}

/// Nothing a turn says is lost or changed until the conversation holds it: words go on the end of the
/// words, a call goes after the calls, a result changes neither, and only once all of it has been
/// committed is there none.
pub proof fn nothing_said_is_lost(was: Round, h: Happened, is: Round)
    requires
        after_event(was, h, is),
    ensures
        match h {
            Happened::Token(text) => words_said(is.said@) == words_said(was.said@) + text@
                && calls_said(is.said@) == calls_said(was.said@),
            Happened::ToolStarted(call) => words_said(is.said@) == words_said(was.said@)
                && calls_said(is.said@) == calls_said(was.said@).push(call.id@),
            Happened::Committed => is.said@.len() == 0,
            _ => words_said(is.said@) == words_said(was.said@) && calls_said(is.said@)
                == calls_said(was.said@),
        },
        is.plan == was.plan && is.tasks == was.tasks && is.verb == was.verb && is.started
            == was.started,
{
    match h {
        Happened::Token(text) => {
            let a = was.said@;
            let b = is.said@;
            if a.len() > 0 && a.last() is Text {
                assert(words_said(b) =~= words_said(a) + text@);
            } else {
                assert(words_said(b) =~= words_said(a) + text@);
            }
        },
        Happened::ToolStarted(call) => {
            let a = was.said@;
            let b = is.said@;
            assert(b.drop_last() =~= a);
            assert(words_said(b) =~= words_said(a));
        },
        Happened::ToolFinished(call, result) => {
            lemma_call_said(was.said@, call.id@);
            if let Some(i) = crate::host::rounds::call_said(was.said@, call.id@) {
                lemma_said_updated(was.said@, i, Said::Tool(was.said@[i]->Tool_0, Some(result)));
            }
        },
        _ => {},
    }
}

/// A result goes with the call it answers: afterwards the newest call of that name has it, and every
/// other thing said is as it was.
pub proof fn a_result_goes_with_its_call(was: Round, h: Happened, is: Round, i: int)
    requires
        after_event(was, h, is),
        h is ToolFinished,
        0 <= i < was.said@.len(),
    ensures
        is.said@.len() == was.said@.len(),
        was.said@[i] is Text || was.said@[i]->Tool_0.id@ != h->ToolFinished_0.id@ ==> is.said@[i]
            == was.said@[i],
        was.said@[i] is Tool && was.said@[i]->Tool_0.id@ == h->ToolFinished_0.id@ && (forall|j: int|
            i < j < was.said@.len() && #[trigger] was.said@[j] is Tool ==> was.said@[j]->Tool_0.id@
                != h->ToolFinished_0.id@) ==> is.said@[i] == Said::Tool(
            was.said@[i]->Tool_0,
            Some(h->ToolFinished_1),
        ),
        is.note is None,
{
    let id = h->ToolFinished_0.id@;
    lemma_call_said(was.said@, id);
    if let Some(k) = crate::host::rounds::call_said(was.said@, id) {
        if i < k {
            assert(was.said@[k] is Tool);
        }
    }
}

/// What a turn is waiting on is the call that runs, from when it starts until it is back.
pub proof fn the_working_line_names_the_call_that_runs(was: Round, h: Happened, is: Round)
    requires
        after_event(was, h, is),
    ensures
        h is ToolStarted ==> is.note is Some && is.note->0@ == "Running "@
            + h->ToolStarted_0.name@,
        h is ToolFinished ==> is.note is None,
        !(h is ToolStarted) && !(h is ToolFinished) ==> is.note == was.note,
{
}

/// A conversation is running from when its turn starts until it ends, however it ends; starting it
/// takes away the note that it was cut off; and it has news exactly where it ended unseen.
pub proof fn a_conversation_knows_whether_it_is_running(
    was: Record,
    h: Happened,
    on_screen: bool,
    clock: i64,
)
    ensures
        ({
            let is = record_after(was, h, on_screen, clock);
            &&& is.running_since == (if h is TurnStarted {
                Some(clock)
            } else if h is TurnEnded {
                None
            } else {
                was.running_since
            })
            &&& is.interrupted == (was.interrupted && !(h is TurnStarted))
            &&& is.unread == (if h is TurnEnded {
                !on_screen
            } else {
                was.unread
            })
            &&& is.updated_at == (if h is TurnEnded {
                clock
            } else {
                was.updated_at
            })
            &&& is.resume == was.resume
            &&& is.context_window == was.context_window
        }),
{
}

/// What happens in one conversation is nothing to any other: every other turn is as it was, and the
/// turn that ended, and only that, is gone.
pub proof fn a_turn_keeps_to_its_conversation(
    was: Seq<Turn>,
    session: Seq<char>,
    h: Happened,
    is: Seq<Turn>,
    other: Seq<char>,
)
    requires
        crate::host::rounds::one_each(was),
        turns_after(was, session, h, is),
    ensures
        other != session ==> round_in(is, other) == round_in(was, other),
        h is TurnEnded ==> round_in(is, session) is None,
        !(h is TurnEnded) ==> (round_in(is, session) is Some) == (round_in(was, session) is Some),
        !(h is TurnEnded) && round_in(was, session) is Some ==> after_event(
            round_in(was, session)->0,
            h,
            round_in(is, session)->0,
        ),
{
    crate::host::rounds::lemma_turn_of(was, session);
    crate::host::rounds::lemma_turn_of(was, other);
    crate::host::rounds::lemma_turn_of(is, session);
    crate::host::rounds::lemma_turn_of(is, other);
    if let Some(i) = turn_of(was, session) {
        if h is TurnEnded {
            if let Some(k) = turn_of(is, session) {
                let x = if k < i {
                    k
                } else {
                    k + 1
                };
                assert(is[k] == was[x]);
                if x < i {
                    assert(was[x].session.0@ != was[i].session.0@);
                } else {
                    assert(was[i].session.0@ != was[x].session.0@);
                }
            }
            if other != session {
                match turn_of(was, other) {
                    Some(k) => {
                        let y = if k < i {
                            k
                        } else {
                            k - 1
                        };
                        assert(is[y] == was[k]);
                        let m = turn_of(is, other)->0;
                        let x = if m < i {
                            m
                        } else {
                            m + 1
                        };
                        assert(is[m] == was[x]);
                        if x < k {
                            assert(was[x].session.0@ != was[k].session.0@);
                        } else if k < x {
                            assert(was[k].session.0@ != was[x].session.0@);
                        }
                    },
                    None => {
                        if let Some(m) = turn_of(is, other) {
                            let x = if m < i {
                                m
                            } else {
                                m + 1
                            };
                            assert(is[m] == was[x]);
                        }
                    },
                }
            }
        } else {
            assert(is[i].session == was[i].session);
            match turn_of(is, session) {
                Some(k) => {
                    if k != i {
                        assert(is[k] == was[k]);
                        if k < i {
                            assert(was[k].session.0@ != was[i].session.0@);
                        } else {
                            assert(was[i].session.0@ != was[k].session.0@);
                        }
                    }
                },
                None => {},
            }
            if other != session {
                match turn_of(was, other) {
                    Some(k) => {
                        assert(is[k] == was[k]);
                        let m = turn_of(is, other)->0;
                        assert(m != i);
                        assert(is[m] == was[m]);
                        if m < k {
                            assert(was[m].session.0@ != was[k].session.0@);
                        } else if k < m {
                            assert(was[k].session.0@ != was[m].session.0@);
                        }
                    },
                    None => {
                        if let Some(m) = turn_of(is, other) {
                            assert(m != i);
                            assert(is[m] == was[m]);
                        }
                    },
                }
            }
        }
    }
}

// ---- what was queued --------------------------------------------------------

proof fn lemma_joined_holds(v: Seq<Seq<char>>, sep: Seq<char>, i: int) -> (at: int)
    requires
        0 <= i < v.len(),
    ensures
        0 <= at,
        at + v[i].len() <= joined_with(v, sep).len(),
        joined_with(v, sep).subrange(at, at + v[i].len()) == v[i],
    decreases v.len(),
{
    let all = joined_with(v, sep);
    if v.len() == 1 {
        assert(all =~= v[0]);
        assert(all.subrange(0, v[0].len() as int) =~= v[0]);
        0
    } else if i == v.len() - 1 {
        let at = all.len() - v[i].len();
        assert(all.subrange(at, at + v[i].len()) =~= v[i]);
        at
    } else {
        let at = lemma_joined_holds(v.drop_last(), sep, i);
        assert(v.drop_last()[i] == v[i]);
        assert(all.subrange(at, at + v[i].len()) =~= joined_with(v.drop_last(), sep).subrange(
            at,
            at + v[i].len(),
        ));
        at
    }
}

/// Nothing that was queued is left out of the message that starts the next turn: every word of every
/// prompt is in it, and every picture.
pub proof fn every_queued_word_is_sent(queued: Seq<Prompt>, p: Prompt, i: int, k: int)
    requires
        is_leftover(queued, Some(p)),
        0 <= i < queued.len(),
    ensures
        exists|at: int|
            0 <= at && at + queued[i].text@.len() <= p.text@.len() && #[trigger] p.text@.subrange(
                at,
                at + queued[i].text@.len(),
            ) == queued[i].text@,
        queued.len() == 1 ==> p.text@ == queued[0].text@ && texts(p.images@) == texts(
            queued[0].images@,
        ),
        0 <= k < queued[i].images@.len() ==> texts(p.images@).contains(queued[i].images@[k]@),
{
    let v = prompt_texts(queued);
    let at = lemma_joined_holds(v, "\n\n"@, i);
    assert(v[i] == queued[i].text@);
    assert(p.text@.subrange(at, at + queued[i].text@.len()) == queued[i].text@);
    if queued.len() == 1 {
        assert(v =~= seq![queued[0].text@]);
        assert(joined_with(v, "\n\n"@) =~= queued[0].text@);
        assert(queued.drop_last() =~= seq![]);
        reveal_with_fuel(prompt_images, 2);
        assert(prompt_images(queued) =~= texts(queued[0].images@));
    }
    if 0 <= k < queued[i].images@.len() {
        lemma_images_hold(queued, i, k);
    }
}

proof fn lemma_images_hold(queued: Seq<Prompt>, i: int, k: int)
    requires
        0 <= i < queued.len(),
        0 <= k < queued[i].images@.len(),
    ensures
        prompt_images(queued).contains(queued[i].images@[k]@),
    decreases queued.len(),
{
    let all = prompt_images(queued);
    let less = prompt_images(queued.drop_last());
    if i == queued.len() - 1 {
        assert(texts(queued[i].images@)[k] == queued[i].images@[k]@);
        assert(all[less.len() + k] == queued[i].images@[k]@);
    } else {
        lemma_images_hold(queued.drop_last(), i, k);
        let j = choose|j: int| 0 <= j < less.len() && less[j] == queued[i].images@[k]@;
        assert(queued.drop_last()[i] == queued[i]);
        assert(all[j] == less[j]);
    }
}

// ---- what a driver says of its own loop -------------------------------------

/// What a driver says of its own loop is told to every plugin, once and first. What it changes under
/// the working line is drawn where that is on screen; what the conversation is to remember is written
/// down; and nothing else is done.
#[verifier::rlimit(60)]
pub proof fn each_word_of_a_driver_is_acted_on(
    was: Option<Round>,
    record: Option<Record>,
    a: Activity,
    on_screen: bool,
    placed: bool,
)
    ensures
        ({
            let v = activity_follows(was, record, a, on_screen, placed);
            &&& v.len() > 0 && v[0] is Broadcast && how_often(v, Step::Broadcast) == 1
            &&& how_often(v, Step::RedrawFooter) == 1 <==> on_screen && (a is Compacted
                || moves_footer(was, a))
            &&& how_often(v, Step::DrawWorking) == 1 <==> on_screen && (a is Compacting
                || a is Compacted)
            &&& how_often(v, Step::DrawCompaction) == 1 <==> on_screen && a is Compacted
            &&& how_often(v, Step::KeepCommands) == 1 <==> a is Commands
            &&& how_often(v, Step::KeepResume) == 1 <==> a is Resume && record is Some && !(
            record->0.resume is Some && record->0.resume->0@ == a->Resume_0@)
            &&& how_often(v, Step::TakeQuota) == 1 <==> a is Quota && placed
            &&& how_often(v, Step::SaveAll) == 1 <==> a is Context || (a is Compacted
                && a->Compacted_0 is Some) || how_often(v, Step::KeepResume) == 1
            &&& a is Context && record is Some ==> how_often(
                v,
                Step::SetContext(a->Context_0, a->Context_1),
            ) == 1
            &&& a is Compacted && a->Compacted_0 is Some && record is Some
                && record->0.context_window is Some ==> how_often(
                v,
                Step::SetContext(a->Compacted_0->0, record->0.context_window->0),
            ) == 1
        }),
{
    let v = activity_follows(was, record, a, on_screen, placed);
    reveal_with_fuel(how_often, 8);
}

proof fn lemma_task_among(tasks: Seq<crate::host::rounds::Task>, id: Seq<char>)
    ensures
        match task_among(tasks, id) {
            Some(i) => 0 <= i < tasks.len() && tasks[i].id@ == id,
            None => forall|i: int| 0 <= i < tasks.len() ==> (#[trigger] tasks[i]).id@ != id,
        },
    decreases tasks.len(),
{
    if tasks.len() > 0 {
        let less = tasks.drop_last();
        lemma_task_among(less, id);
        if task_among(tasks, id) is None {
            assert forall|i: int| 0 <= i < tasks.len() implies (#[trigger] tasks[i]).id@ != id by {
                if i < less.len() {
                    assert(less[i] == tasks[i]);
                }
            }
        }
    }
}

/// What a round holds after what a driver said is what the driver said: the plan is the one it gave, a
/// sub-agent that starts is out under its title, one that reports goes by what it reports, one that
/// ends stands as it ended; a driver that is busy with its own window says so until it is done, and
/// its plan goes with what it forgot. What has been said is not touched by any of it.
pub proof fn a_round_holds_what_the_driver_said(was: Round, a: Activity, now: u64, is: Round, k: int)
    requires
        after_activity(was, a, now, is),
    ensures
        is.said == was.said && is.verb == was.verb && is.started == was.started && is.counted
            == was.counted,
        a is Plan ==> same_plan(is.plan@, a->Plan_0@),
        !(a is Plan) && !(a is Compacted) ==> is.plan == was.plan,
        a is Compacted ==> is.plan@.len() == 0 && is.note is None,
        a is Compacting ==> is.note is Some && is.note->0@.len() > 0,
        !(a is Compacting) && !(a is Compacted) ==> is.note == was.note,
        // No sub-agent is ever forgotten, and none but the one that is spoken of changes.
        is.tasks@.len() >= was.tasks@.len(),
        match a {
            Activity::TaskStarted(id, title, role) => exists|i: int|
                0 <= i < is.tasks@.len() && (#[trigger] is.tasks@[i]).id@ == id@
                    && is.tasks@[i].title == title && (role is Some ==> is.tasks@[i].role == role),
            Activity::TaskEnded(id, status) => forall|i: int|
                0 <= i < was.tasks@.len() && task_among(was.tasks@, id@) == Some(i) ==> (
                #[trigger] is.tasks@[i]).status == status && is.tasks@[i].title
                    == was.tasks@[i].title,
            _ => true,
        },
        0 <= k < was.tasks@.len() ==> is.tasks@[k].id == was.tasks@[k].id && is.tasks@[k].since
            == was.tasks@[k].since,
        0 <= k < was.tasks@.len() ==> match a {
            Activity::TaskStarted(id, _, _) => was.tasks@[k].id@ != id@ ==> is.tasks@[k]
                == was.tasks@[k],
            Activity::TaskProgress(id, _, _) => (was.tasks@[k].id@ != id@ ==> is.tasks@[k]
                == was.tasks@[k]) && is.tasks@[k].status == was.tasks@[k].status,
            Activity::TaskEnded(id, _) => was.tasks@[k].id@ != id@ ==> is.tasks@[k]
                == was.tasks@[k],
            _ => is.tasks@[k] == was.tasks@[k],
        },
{
    match a {
        Activity::TaskStarted(id, title, role) => {
            lemma_task_among(was.tasks@, id@);
            match task_among(was.tasks@, id@) {
                Some(i) => {
                    assert(is.tasks@[i].id@ == id@);
                },
                None => {
                    assert(is.tasks@[was.tasks@.len() as int].id@ == id@);
                },
            }
        },
        Activity::TaskProgress(id, _, _) => {
            lemma_task_among(was.tasks@, id@);
        },
        Activity::TaskEnded(id, _) => {
            lemma_task_among(was.tasks@, id@);
        },
        Activity::Compacting => {
            reveal_strlit("Compacting the conversation");
        },
        _ => {},
    }
}

/// The footer is drawn again exactly where something in it has changed: nothing is drawn for a plan
/// or an ending that was known already.
pub proof fn the_footer_moves_where_it_changed(was: Round, a: Activity, now: u64, is: Round)
    requires
        after_activity(was, a, now, is),
    ensures
        a is Plan ==> moves_footer(Some(was), a) == !same_plan(was.plan@, is.plan@),
        a is TaskStarted ==> moves_footer(Some(was), a),
        a is TaskEnded ==> (moves_footer(Some(was), a) <==> exists|i: int|
            0 <= i < was.tasks@.len() && (#[trigger] was.tasks@[i]).status != is.tasks@[i].status),
        moves_footer(None, a) == false,
{
    match a {
        Activity::TaskEnded(id, status) => {
            lemma_task_among(was.tasks@, id@);
            if let Some(i) = task_among(was.tasks@, id@) {
                if was.tasks@[i].status != status {
                    assert(was.tasks@[i].status != is.tasks@[i].status);
                }
            }
        },
        _ => {},
    }
}

} // verus!
