//! What is done, and when: for what arrives, for what a clock says, and for what a plugin meant.

use crate::host::calls::{Call, Known};
use crate::host::calls::loaded;
use crate::host::desk::{meant_by, paired_at, paired_name, row_after, shown_of, Meant};
use crate::host::inputs::{does_of, done_if, Arrived, Deed, Input};
use crate::host::keys::KeyPress;
use crate::host::prompts::{
    mask_of, no_secret, search_after, secret_after, secret_line, secret_said, KeyFor, Stored,
};
use crate::host::calls::Fault;
use crate::host::pulse::{
    backoff_after, done_after, due_of, ending, patience, times_two, wait_after, After, Chore, Clock,
    Pulse, Until,
};
use crate::host::questions::{no_reply, question_lines, StopReason};
use crate::images::Attachment;
use crate::text::{decimal, is_blank};
use crate::words::lines_of;
use vstd::prelude::*;

verus! {

// ---- what arrives -----------------------------------------------------------

/// Each thing that is done for what arrives is done for what calls for it, and for nothing else. A
/// key that is being typed in comes before a search, and both before everything else.
pub proof fn each_thing_that_arrives_is_dealt_with(input: Input, pasted: Option<String>, at: Arrived)
    ensures
        ({
            let v = does_of(input, pasted, at);
            let typed = at.secret || at.search;
            let paste = input is Paste;
            &&& v.contains(Deed::SecretKey) == (input is Key && at.secret)
            &&& v.contains(Deed::SearchKey) == (input is Key && at.search && !at.secret)
            &&& v.contains(Deed::FeedKey) == (input is Key && !typed)
            &&& v.contains(Deed::LeaveReading) == (paste && !typed && at.reading)
            &&& v.contains(Deed::SetViewport) == (input is Viewport)
            &&& v.contains(Deed::DrawWelcome) == (input is Attached || input is Ready
                || input is Resize || (input is Viewport && input->Viewport_0
                && !input->Viewport_2))
            &&& v.contains(Deed::DropQueued) == (input is Attached)
            &&& v.contains(Deed::Republish) == (input is Attached)
            &&& v.contains(Deed::TellAttached) == (input is Attached)
            &&& v.contains(Deed::ReportLiveNow) == (input is Attached)
            &&& v.contains(Deed::ScrollComposer) == (input is Ready || input is Resize)
            &&& v.contains(Deed::HoldCommand) == (input is Command && at.loading
                && !input->Command_0)
            &&& v.contains(Deed::RunCommand) == (input is Command && !(at.loading
                && !input->Command_0))
            &&& v.contains(Deed::Flush) == (input is Repaint)
            &&& v.contains(Deed::RefreshComposer) == (!typed && !(input is Repaint))
        }),
{
    let v = does_of(input, pasted, at);
    let quiet = !at.secret && !at.search;
    match input {
        Input::Viewport(chat, top, same) => {
            let a = seq![Deed::SetViewport];
            let b = done_if(chat && at.scrolled, Deed::FollowTop(top));
            let c = done_if(chat && !same, Deed::DrawWelcome);
            let e = done_if(quiet, Deed::RefreshComposer);
            lemma_few(a);
            lemma_few(b);
            lemma_few(c);
            lemma_few(e);
            assert(v == a + b + c + e);
            assert forall|d: Deed| #[trigger]
                v.contains(d) == (a.contains(d) || b.contains(d) || c.contains(d) || e.contains(
                    d,
                )) by {
                lemma_either(a, b, d);
                lemma_either(a + b, c, d);
                lemma_either(a + b + c, e, d);
            }
        },
        Input::Attached => {
            if quiet {
                assert(v =~= seq![
                    Deed::DropQueued,
                    Deed::Republish,
                    Deed::DrawWelcome,
                    Deed::TellAttached,
                    Deed::ReportLiveNow,
                    Deed::RefreshComposer,
                ]);
            } else {
                assert(v =~= seq![
                    Deed::DropQueued,
                    Deed::Republish,
                    Deed::DrawWelcome,
                    Deed::TellAttached,
                    Deed::ReportLiveNow,
                ]);
            }
            lemma_few(v);
        },
        Input::Paste(text) => {
            lemma_lines_of_deeds(input, pasted, at);
            lemma_few(v);
        },
        _ => {
            assert(v.len() <= 3);
            lemma_few(v);
        },
    }
}

proof fn lemma_either(a: Seq<Deed>, b: Seq<Deed>, d: Deed)
    ensures
        (a + b).contains(d) == (a.contains(d) || b.contains(d)),
{
    let s = a + b;
    if a.contains(d) {
        let i = choose|i: int| 0 <= i < a.len() && a[i] == d;
        assert(s[i] == d);
    }
    if b.contains(d) {
        let i = choose|i: int| 0 <= i < b.len() && b[i] == d;
        assert(s[a.len() + i] == d);
    }
    if s.contains(d) {
        let i = choose|i: int| 0 <= i < s.len() && s[i] == d;
        if i < a.len() {
            assert(a[i] == d);
        } else {
            assert(b[i - a.len()] == d);
        }
    }
}

proof fn lemma_few(a: Seq<Deed>)
    requires
        a.len() <= 6,
    ensures
        forall|d: Deed| #[trigger]
            a.contains(d) == ((a.len() > 0 && a[0] == d) || (a.len() > 1 && a[1] == d) || (a.len()
                > 2 && a[2] == d) || (a.len() > 3 && a[3] == d) || (a.len() > 4 && a[4] == d) || (
            a.len() > 5 && a[5] == d)),
{
    assert forall|d: Deed| #[trigger]
        a.contains(d) == ((a.len() > 0 && a[0] == d) || (a.len() > 1 && a[1] == d) || (a.len() > 2
            && a[2] == d) || (a.len() > 3 && a[3] == d) || (a.len() > 4 && a[4] == d) || (a.len()
            > 5 && a[5] == d)) by {
        if a.len() > 0 && a[0] == d {
            assert(a.contains(d));
        }
        if a.len() > 1 && a[1] == d {
            assert(a.contains(d));
        }
        if a.len() > 2 && a[2] == d {
            assert(a.contains(d));
        }
        if a.len() > 3 && a[3] == d {
            assert(a.contains(d));
        }
        if a.len() > 4 && a[4] == d {
            assert(a.contains(d));
        }
        if a.len() > 5 && a[5] == d {
            assert(a.contains(d));
        }
    }
}

proof fn lemma_lines_of_deeds(input: Input, pasted: Option<String>, at: Arrived)
    ensures
        does_of(input, pasted, at).len() <= 6,
{
}

/// What was pasted is not lost: it goes to the key that is being typed in, or to the search, or into
/// the composer, or the file it names is attached.
pub proof fn what_was_pasted_goes_somewhere(text: String, pasted: Option<String>, at: Arrived)
    ensures
        ({
            let v = does_of(Input::Paste(text), pasted, at);
            &&& v.contains(Deed::SecretPaste(text)) == at.secret
            &&& v.contains(Deed::SearchPaste(text)) == (at.search && !at.secret)
            &&& v.contains(Deed::Insert(text)) == (!at.secret && !at.search && pasted is None)
            &&& pasted is Some ==> v.contains(Deed::Attach(pasted->0, text)) == (!at.secret
                && !at.search)
        }),
{
    lemma_lines_of_deeds(Input::Paste(text), pasted, at);
    lemma_few(does_of(Input::Paste(text), pasted, at));
}

/// A window that shows another row first is followed where the transcript was scrolled back in, and
/// nowhere else.
pub proof fn a_window_is_followed_where_it_was_moved(
    chat: bool,
    top: u32,
    same: bool,
    pasted: Option<String>,
    at: Arrived,
)
    ensures
        does_of(Input::Viewport(chat, top, same), pasted, at).contains(Deed::FollowTop(top)) == (chat
            && at.scrolled),
{
    lemma_lines_of_deeds(Input::Viewport(chat, top, same), pasted, at);
    lemma_few(does_of(Input::Viewport(chat, top, same), pasted, at));
}

// ---- the clocks -------------------------------------------------------------

/// Each clock does its own when it runs out: a frame is drawn, a second moves what counts seconds, a
/// binding that was never finished is taken for what it is, and a plan is asked.
pub proof fn each_clock_does_its_own(c: Clock)
    ensures
        due_of(c).contains(Chore::Flush) == (c is Frame),
        due_of(c).contains(Chore::DrawWorking) == (c is Second),
        due_of(c).contains(Chore::TickCards) == (c is Second),
        due_of(c).contains(Chore::TickFooter) == (c is Second),
        due_of(c).contains(Chore::ReportLive) == (c is Second),
        due_of(c).contains(Chore::FlushKeys) == (c is Keys),
        due_of(c).contains(Chore::RefreshQuota) == (c is Plan),
        due_of(c).contains(Chore::Wind(Clock::Plan(Until::Idle))) == (c is Plan),
{
    let a = due_of(c);
    lemma_few_chores(a);
}

proof fn lemma_few_chores(a: Seq<Chore>)
    requires
        a.len() <= 8,
    ensures
        forall|d: Chore| #[trigger]
            a.contains(d) == ((a.len() > 0 && a[0] == d) || (a.len() > 1 && a[1] == d) || (a.len()
                > 2 && a[2] == d) || (a.len() > 3 && a[3] == d) || (a.len() > 4 && a[4] == d) || (
            a.len() > 5 && a[5] == d) || (a.len() > 6 && a[6] == d) || (a.len() > 7 && a[7] == d)),
{
    assert forall|d: Chore| #[trigger]
        a.contains(d) == ((a.len() > 0 && a[0] == d) || (a.len() > 1 && a[1] == d) || (a.len() > 2
            && a[2] == d) || (a.len() > 3 && a[3] == d) || (a.len() > 4 && a[4] == d) || (a.len()
            > 5 && a[5] == d) || (a.len() > 6 && a[6] == d) || (a.len() > 7 && a[7] == d)) by {
        if a.len() > 0 && a[0] == d {
            assert(a.contains(d));
        }
        if a.len() > 1 && a[1] == d {
            assert(a.contains(d));
        }
        if a.len() > 2 && a[2] == d {
            assert(a.contains(d));
        }
        if a.len() > 3 && a[3] == d {
            assert(a.contains(d));
        }
        if a.len() > 4 && a[4] == d {
            assert(a.contains(d));
        }
        if a.len() > 5 && a[5] == d {
            assert(a.contains(d));
        }
        if a.len() > 6 && a[6] == d {
            assert(a.contains(d));
        }
        if a.len() > 7 && a[7] == d {
            assert(a.contains(d));
        }
    }
}

/// A clock is wound where what it is for is called for and it does not run already; the one for half
/// a binding is wound anew with every key that may go on.
pub proof fn each_clock_is_wound_where_it_is_called_for(p: Pulse, a: After)
    ensures
        ({
            let v = done_after(p, a);
            &&& v.contains(Chore::Wind(Clock::Second)) == (a.working && !p.ticking)
            &&& v.contains(Chore::Wind(Clock::Frame)) == (a.pending_ui && !p.armed)
            &&& v.contains(Chore::Wind(Clock::Plan(Until::AfterTurn))) == a.quota_due
            &&& v.contains(Chore::Wind(Clock::Keys(patience(a.timeoutlen)))) == (a.keys_touched
                && a.keys_pending)
        }),
{
    let v = done_after(p, a);
    lemma_few_chores(v);
}

/// A terminal that leaves is sent away with everything saved and drawn before, and what is running
/// said after; nobody is sent away who did not ask.
pub proof fn a_terminal_is_sent_away_last(p: Pulse, a: After, view: u64)
    ensures
        done_after(p, a).contains(Chore::Detach(view)) == (a.detaching == Some(view)),
        a.detaching == Some(view) ==> {
            let v = done_after(p, a);
            &&& v.len() >= 4
            &&& v[0] == Chore::SaveSessions
            &&& v[1] == Chore::Flush
            &&& v[2] == Chore::Detach(view)
            &&& v[3] == Chore::ReportLiveNow
        },
        done_after(p, a).contains(Chore::SaveSessions) == (a.detaching is Some),
        !done_after(p, a).contains(Chore::Shutdown),
{
    lemma_few_chores(done_after(p, a));
}

/// At the end everything is saved and drawn, and whoever draws is told last.
pub proof fn the_end_saves_first()
    ensures
        ending().len() == 3,
        ending().first() == Chore::SaveSessions,
        ending()[1] == Chore::Flush,
        ending().last() == Chore::Shutdown,
{
}

/// Half a binding waits as long as was set, half a second where nothing was, and no time at all
/// where what was set is less than none.
pub proof fn half_a_binding_waits_as_long_as_was_set(ms: i64)
    ensures
        patience(None) == 500,
        ms >= 0 ==> patience(Some(ms)) == ms,
        ms < 0 ==> patience(Some(ms)) == 0,
{
}

/// Each time that a plan does not answer doubles how long it is left alone, up to a bound and at most
/// six times; one that answers starts again, and one that is throttled is left alone eight times as
/// long at once.
pub proof fn each_failure_doubles_the_wait(was: u32, idle: int, most: int)
    requires
        was < u32::MAX,
        0 <= idle,
        0 <= most,
    ensures
        backoff_after(was, true, true) == 0 && backoff_after(was, true, false) == 0,
        backoff_after(was, false, false) == was + 1,
        backoff_after(was, false, true) >= 3,
        backoff_after(was, false, true) > was,
        was >= 2 ==> backoff_after(was, false, true) == was + 1,
        was < 2 ==> backoff_after(was, false, true) == 3,
        idle <= most ==> wait_after(0, idle, most) == idle,
        was < 6 && 2 * wait_after(was as int, idle, most) <= most ==> wait_after(
            was + 1,
            idle,
            most,
        ) == 2 * wait_after(was as int, idle, most),
        was >= 6 ==> wait_after(was + 1, idle, most) == wait_after(was as int, idle, most),
{
    assert(times_two(idle, 0) == idle);
    if was < 6 {
        assert(times_two(idle, was + 1) == 2 * times_two(idle, was as int));
        lemma_times_two(idle, was as int);
    }
}

proof fn lemma_times_two(n: int, steps: int)
    requires
        n >= 0,
    ensures
        times_two(n, steps) >= n,
    decreases steps,
{
    if steps > 0 {
        lemma_times_two(n, steps - 1);
    }
}

// ---- what a plugin meant ----------------------------------------------------

/// What a call keeps or tells is what it names, under the plugin's own name where that is whose it
/// is; a call that drops something leaves nothing of it, and no other call keeps or tells anything.
pub proof fn what_a_plugin_meant_is_what_it_said(call: Call, k: Known)
    ensures
        (meant_by(call, k) is State) == (call is StateSet || call is StateDelete),
        (meant_by(call, k) is Var) == (call is VarSet || call is VarDelete),
        (meant_by(call, k) is Event) == (call is EventEmit),
        (meant_by(call, k) is Pair) == (call is SwarmPair && k.swarm),
        (meant_by(call, k) is Forget) == (call is ProviderForgetCredential),
        (meant_by(call, k) is New) == (call is SessionNew && k.is_dir),
        match meant_by(call, k) {
            Meant::State(owner, key, value) => {
                &&& owner == k.plugin@
                &&& call is StateSet ==> key == call->StateSet_0@ && value == Some(
                    call->StateSet_1@,
                )
                &&& call is StateDelete ==> key == call->StateDelete_0@ && value is None
            },
            Meant::Var(scope, key, value) => {
                &&& call is VarSet ==> scope == call->VarSet_0@ && key == call->VarSet_1@ && value
                    == Some(call->VarSet_2@)
                &&& call is VarDelete ==> scope == call->VarDelete_0@ && key == call->VarDelete_1@
                    && value is None
            },
            Meant::Event(name, data, from) => name == call->EventEmit_0@ && data
                == call->EventEmit_1@ && from == k.plugin@,
            Meant::Forget(instance, said) => instance == call->ProviderForgetCredential_0@ && said
                == "forgot the key for "@ + instance,
            Meant::Pair(node, name, _, said) => node == call->SwarmPair_0@ && said
                == "paired with "@ + name,
            Meant::New(title) => (title is Some) == (call->SessionNew_1 is Some && !is_blank(
                call->SessionNew_1->0@,
            )) && (title is Some ==> title->0 == call->SessionNew_1->0@),
            Meant::Nothing => true,
        },
{
}

/// A machine is called what it calls itself, where it has been met and does, and else what it was
/// called when it was paired with; and it is where it was said to be, or else where it was met.
pub proof fn a_machine_is_called_what_it_calls_itself(k: Known, name: Seq<char>, addr: Option<String>)
    ensures
        k.stranger is Some && k.stranger->0.name@.len() > 0 ==> paired_name(k.stranger, name)
            == k.stranger->0.name@,
        k.stranger is None || k.stranger->0.name@.len() == 0 ==> paired_name(k.stranger, name)
            == name,
        addr is Some ==> paired_at(k.stranger, addr) == Some(addr->0@),
        addr is None && k.stranger is None ==> paired_at(k.stranger, addr) is None,
        addr is None && k.stranger is Some ==> match (
            paired_at(k.stranger, addr),
            k.stranger->0.addr,
        ) {
            (Some(a), Some(b)) => a == b@,
            (None, None) => true,
            _ => false,
        },
{
}

/// Attaching puts what could be read behind what is there, taking everything off leaves nothing, and
/// no call but these and the one that takes one off changes what is attached.
pub proof fn only_some_calls_change_what_is_attached(
    call: Call,
    row: Seq<Attachment>,
    v: Seq<Result<Attachment, String>>,
)
    ensures
        call is AgentSend || call is ChatAttach ==> row_after(call, row, v) == row + loaded(v),
        call is ChatDetachAll ==> row_after(call, row, v).len() == 0 && shown_of(call, row, v)
            == row,
        call is ChatAttach ==> shown_of(call, row, v) == loaded(v),
        call is ChatAttachments ==> shown_of(call, row, v) == row,
        row_after(call, row, v) != row ==> call is AgentSend || call is ChatAttach
            || call is ChatDetach || call is ChatDetachAll,
{
}

// ---- what is typed in -------------------------------------------------------

/// Typing puts what was typed at the end, and takes nothing away; leaving and sending change nothing
/// of it; a chord empties it or leaves, and any other key does nothing.
pub proof fn what_is_typed_is_what_is_there(value: Seq<char>, key: KeyPress)
    ensures
        ({
            let (does, now) = secret_after(value, key);
            let chord = |c: char| key.code is Char && key.mods.ctrl && key.typed() == seq![c];
            let typing = key.code is Char && !key.mods.ctrl && !key.mods.alt;
            &&& (does is Submit) == (key.code is Enter)
            &&& (does is Cancel) == (key.code is Esc || chord('c'))
            &&& (does is Changed) == (typing || key.code is Backspace || chord('u'))
            &&& typing ==> now == value + key.typed()
            &&& chord('u') ==> now.len() == 0
            &&& !(does is Changed) ==> now == value
        }),
        ({
            let (does, now) = search_after(value, key);
            &&& value.len() > 0 || !(key.code is Backspace) ==> (does, now) == secret_after(
                value,
                key,
            )
            &&& value.len() == 0 && key.code is Backspace ==> does is Cancel && now == value
        }),
{
    reveal_strlit("u");
    reveal_strlit("c");
    assert("u"@ =~= seq!['u']);
    assert("c"@ =~= seq!['c']);
    let u = seq!['u'];
    let c = seq!['c'];
    assert(u[0] == 'u' && c[0] == 'c');
}

/// A key is shown as one bullet for each character, up to thirty-two, and past that by how many more
/// there are.
pub proof fn a_key_is_shown_as_bullets(label: Seq<char>, n: nat)
    ensures
        n <= 32 ==> mask_of(n).len() == n && forall|i: int|
            0 <= i < n ==> #[trigger] mask_of(n)[i] == '\u{2022}',
        n > 32 ==> mask_of(n) == mask_of(32) + " +"@ + decimal((n - 32) as nat),
        secret_line(label, n) == "key for "@ + label + "  "@ + mask_of(n),
{
}

/// A key is asked for unless one is being typed in already, nothing is known of whose it would be,
/// there is nowhere to put it, or there is one that is not to be replaced.
pub proof fn a_key_is_asked_for_where_it_can_be_kept(
    busy: bool,
    instance: Seq<char>,
    known: Option<KeyFor>,
    replace: bool,
)
    ensures
        (no_secret(busy, instance, known, replace) is None) == (!busy && known is Some
            && known->0.accepts && (replace || !known->0.present)),
        match no_secret(busy, instance, known, replace) {
            Some(f) => {
                &&& (f is Busy) == busy
                &&& (f is NotFound) == (!busy && known is None)
                &&& (f is InvalidArgument) == (!busy && known is Some)
                &&& f is NotFound ==> f == Fault::NotFound("instance "@ + instance)
            },
            None => true,
        },
{
}

/// What is said of a key names whose it is, and warns where it will not be there tomorrow.
pub proof fn a_key_that_is_not_kept_is_warned_of(label: Seq<char>, stored: Option<Stored>)
    ensures
        (secret_said(label, stored).0 == crate::notify::MessageLevel::Info) == (stored == Some(
            Stored::Keychain,
        )),
        stored is Some ==> label.is_prefix_of(secret_said(label, stored).1),
        stored is None ==> secret_said(label, stored).1 == "nothing entered"@,
{
}

// ---- what was asked ---------------------------------------------------------

/// A question is drawn with a bar before each of its lines: the pictures that came with it first,
/// then every line of its text, in order, each of them whole.
pub proof fn a_question_is_drawn_whole(bar: Seq<char>, images: Seq<Seq<char>>, text: Seq<char>)
    ensures
        ({
            let rows = question_lines(bar, images, text);
            let n = images.len() as int;
            &&& rows.len() >= n + lines_of(text).len()
            &&& forall|i: int| 0 <= i < n ==> (#[trigger] rows[i]).text == bar + " "@ + images[i]
            &&& forall|j: int|
                0 <= j < lines_of(text).len() ==> (#[trigger] rows[n + j]).text == bar + " "@
                    + lines_of(text)[j]
            &&& rows.len() > n + lines_of(text).len() ==> rows.len() == n + lines_of(text).len() + 1
                && rows.last().text == bar
            &&& forall|i: int| 0 <= i < rows.len() ==> bar.is_prefix_of((#[trigger] rows[i]).text)
        }),
{
    let rows = question_lines(bar, images, text);
    let n = images.len() as int;
    assert forall|i: int| 0 <= i < rows.len() implies bar.is_prefix_of((#[trigger] rows[i]).text) by {
        if i < n {
            assert(rows[i].text == bar + " "@ + images[i]);
            assert(rows[i].text.subrange(0, bar.len() as int) =~= bar);
        } else if i < n + lines_of(text).len() {
            assert(rows[i].text == bar + " "@ + lines_of(text)[i - n]);
            assert(rows[i].text.subrange(0, bar.len() as int) =~= bar);
        } else {
            assert(rows[i].text.subrange(0, bar.len() as int) =~= bar);
        }
    }
}

/// What is drawn in the place of an answer says why there is none.
pub proof fn a_turn_without_an_answer_says_why(stop: StopReason)
    ensures
        match stop {
            StopReason::Error(m) => no_reply(stop).text == m@,
            StopReason::Refusal(Some(m)) => no_reply(stop).text == m@,
            StopReason::Refusal(None) => no_reply(stop).text == "the model declined to answer"@,
            StopReason::Cancelled => no_reply(stop).text == "interrupted"@,
            StopReason::MaxTokens => no_reply(stop).text == "the reply hit the output limit"@,
            StopReason::EndTurn | StopReason::ToolUse => no_reply(stop).text
                == "no reply \u{2014} the turn ended here"@,
        },
{
}

} // verus!
