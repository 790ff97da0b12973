//! Turns in flight, the commands that stop them, and the clocks round them.

use neosh::host::cards::ToolResult;
use neosh::host::commands::{
    ask_key, copy_or_say, copy_selection, drop_attachment, edit_queue, interrupt, key_target, leave,
    register_builtin_commands, Unqueued,
    run_builtin, seed_hints, taken_back, took_off, Action, Exit, OnQuit, Pane, Pressed, ARM_WINDOW,
    COMMANDS,
};
use neosh::host::keys::Mode;
use neosh::host::looking::{
    replay_round, tasks_left_running, tick_cards, tick_footer, Again,
};
use neosh::host::pulse::{report_live, After, Chore, Clock, Pulse, Turned, Until};
use neosh::host::rounds::{
    instance_of, leftover, steps_for, verb_at, Activity, Around, Event, Happened, PlanStep, Prompt,
    Record, Round, Said, Sent, Step, StepStatus, TaskStatus, ToolCall, Turns, VERBS,
};
use neosh::images::Attachment;
use neosh::notify::{MessageLevel, SessionId};

fn session(s: &str) -> SessionId {
    SessionId(s.to_string())
}

fn call(id: &str, name: &str) -> ToolCall {
    ToolCall { id: id.into(), name: name.into(), input: "{}".into() }
}

fn result(text: &str) -> ToolResult {
    ToolResult { content: text.into(), is_error: false }
}

#[test]
fn a_verb_is_chosen_by_the_clock() {
    assert_eq!(verb_at(0), "Thinking");
    assert_eq!(verb_at(11), "Turning it over");
    assert_eq!(verb_at(12), VERBS[0]);
    assert_eq!(verb_at(-1), VERBS[1]);
    assert_eq!(verb_at(i64::MIN), VERBS[(i64::MIN.unsigned_abs() % 12) as usize]);
}

#[test]
fn what_a_turn_says_is_kept_in_the_order_it_was_said() {
    let mut r = Round::new("Thinking", 0);
    r.heard_text("half ");
    r.heard_text("a sentence");
    r.tool_started(call("1", "read"));
    assert_eq!(r.note.as_deref(), Some("Running read"));
    r.heard_text("more");
    r.tool_finished("1", result("done"));
    assert!(r.note.is_none());
    assert_eq!(r.said.len(), 3);
    assert!(matches!(&r.said[0], Said::Text(t) if t == "half a sentence"));
    assert!(matches!(&r.said[1], Said::Tool(c, Some(x)) if c.id == "1" && x.content == "done"));
    r.tool_finished("missing", result("nothing"));
    r.committed();
    assert!(r.said.is_empty());
}

#[test]
fn a_plan_is_news_only_when_it_is_another() {
    let steps = |s: StepStatus| vec![PlanStep { text: "look".into(), status: s }];
    let mut r = Round::new("Working", 0);
    assert!(r.set_plan(steps(StepStatus::Pending)));
    assert!(!r.set_plan(steps(StepStatus::Pending)));
    assert!(r.set_plan(steps(StepStatus::Completed)));
    r.compacting();
    assert_eq!(r.note.as_deref(), Some("Compacting the conversation"));
    r.compacted();
    assert!(r.plan.is_empty() && r.note.is_none());
}

#[test]
fn a_sub_agent_announced_twice_is_one() {
    let mut r = Round::new("Working", 0);
    r.task_started("t".into(), "first".into(), None, 5);
    r.task_started("t".into(), "second".into(), Some("kind".into()), 9);
    r.task_started("t".into(), "third".into(), None, 9);
    assert_eq!(r.tasks.len(), 1);
    assert_eq!((r.tasks[0].title.as_str(), r.tasks[0].since), ("third", 5));
    assert_eq!(r.tasks[0].role.as_deref(), Some("kind"));
    assert!(r.task_progress("t", None, Some("grep".into())));
    assert_eq!(r.tasks[0].title, "grep");
    assert!(!r.task_progress("u", Some("x".into()), None));
    assert!(tick_footer(&r.tasks));
    let rows = tasks_left_running(&r.tasks, Some(15));
    assert_eq!((rows[0].since, rows[0].live), (Some(10), true));
    let rows = tasks_left_running(&r.tasks, None);
    assert_eq!((rows[0].since, rows[0].live), (None, false));
    assert!(r.task_ended("t", TaskStatus::Completed));
    assert!(!r.task_ended("t", TaskStatus::Completed));
    assert!(!tick_footer(&r.tasks));
    assert!(tasks_left_running(&r.tasks, None).is_empty());
}

#[test]
fn a_conversation_has_one_turn_and_what_comes_meanwhile_steers_it() {
    let mut t = Turns::new();
    assert_eq!(t.start_turn_in(session("a"), 0, 7), Sent::Started);
    assert_eq!(t.start_turn_in(session("a"), 0, 8), Sent::Steered);
    assert_eq!(t.start_turn_in(session("b"), 1, 9), Sent::Started);
    assert_eq!(t.running.len(), 2);
    assert_eq!(t.running[1].round.verb, "Working");
    assert_eq!(t.cancel(&session("a")), Some(true));
    assert_eq!(t.cancel(&session("a")), Some(false), "the second press changes nothing");
    assert_eq!(t.cancel(&session("c")), None);
    assert_eq!(t.start_turn_in(session("a"), 0, 10), Sent::Steered, "it is winding down");
    assert!(t.end(&session("a")).is_some());
    assert!(t.end(&session("a")).is_none());
    assert_eq!(t.start_turn_in(session("a"), 0, 11), Sent::Started);
}

#[test]
fn a_turn_leaves_a_note_until_somebody_ends_it() {
    let mut r = Record {
        running_since: None,
        interrupted: true,
        unread: false,
        updated_at: 0,
        resume: None,
        context_window: None,
    };
    assert!(r.turn_started(10));
    assert!(!r.turn_started(11));
    assert_eq!(r.running_since, Some(11));
    r.turn_ended(20, false);
    assert_eq!((r.running_since, r.updated_at, r.unread), (None, 20, true));
    assert!(r.resumes_as("x".into()));
    assert!(!r.resumes_as("x".into()));
}

#[test]
fn what_was_queued_becomes_one_message() {
    assert!(leftover(vec![]).is_none());
    let p = leftover(vec![
        Prompt { text: "one".into(), images: vec!["a".into()] },
        Prompt { text: "two".into(), images: vec!["b".into(), "c".into()] },
    ])
    .expect("one message");
    assert_eq!(p.text, "one\n\ntwo");
    assert_eq!(p.images, vec!["a", "b", "c"]);
}

fn around(on_screen: bool) -> Around {
    Around {
        on_screen,
        watched: false,
        was_cut_off: true,
        show_thinking: true,
        queued: true,
        failed: false,
    }
}

#[test]
fn an_event_off_screen_draws_nothing() {
    assert_eq!(
        steps_for(Event::TurnEnded, around(true)),
        vec![
            Step::CloseTurn,
            Step::SaveAll,
            Step::Broadcast,
            Step::QuotaDue,
            Step::StartNext,
            Step::RefreshComposer
        ]
    );
    assert_eq!(
        steps_for(Event::TurnStarted, around(false)),
        vec![Step::SaveOne, Step::Broadcast]
    );
    assert_eq!(
        steps_for(Event::ToolFinished, around(false)),
        vec![Step::Tally, Step::Broadcast]
    );
    assert!(steps_for(Event::Steered, around(false)).is_empty());
    let mut watched = around(true);
    watched.watched = true;
    assert_eq!(
        steps_for(Event::Token, watched),
        vec![Step::DrawAnswer, Step::StreamOut, Step::Broadcast]
    );
    assert_eq!(steps_for(Event::Notice, around(true)), vec![Step::Say]);
}

#[test]
fn what_a_driver_says_of_itself_is_kept_wherever_you_are_looking() {
    let mut t = Turns::new();
    t.start_turn_in(session("a"), 0, 0);
    let plan = || Activity::Plan(vec![PlanStep { text: "x".into(), status: StepStatus::Pending }]);
    let off = t.handle_activity(&session("a"), plan(), None, false, false, 1);
    assert_eq!(off, vec![Step::Broadcast]);
    assert_eq!(t.running[0].round.plan.len(), 1);
    let same = t.handle_activity(&session("a"), plan(), None, true, false, 1);
    assert_eq!(same, vec![Step::Broadcast], "the same plan is not news");
    let started = Activity::TaskStarted("t".into(), "look".into(), None);
    assert_eq!(
        t.handle_activity(&session("a"), started, None, true, false, 1),
        vec![Step::Broadcast, Step::RedrawFooter]
    );
    let record = Record {
        running_since: None,
        interrupted: false,
        unread: false,
        updated_at: 0,
        resume: Some("r".into()),
        context_window: Some(100),
    };
    assert_eq!(
        t.handle_activity(&session("a"), Activity::Compacted(Some(7)), Some(&record), true, false, 1),
        vec![
            Step::Broadcast,
            Step::SetContext(7, 100),
            Step::SaveAll,
            Step::DrawCompaction,
            Step::RedrawFooter,
            Step::DrawWorking
        ]
    );
    assert_eq!(
        t.handle_activity(&session("a"), Activity::Resume("r".into()), Some(&record), true, false, 1),
        vec![Step::Broadcast]
    );
    assert_eq!(
        t.handle_activity(&session("z"), Activity::Resume("s".into()), Some(&record), true, false, 1),
        vec![Step::Broadcast, Step::KeepResume, Step::SaveAll]
    );
    assert_eq!(
        t.handle_activity(&session("a"), Activity::Quota, None, true, false, 1),
        vec![Step::Broadcast]
    );
    assert_eq!(instance_of(None, Some("w".into())).as_deref(), Some("w"));
    assert_eq!(instance_of(Some("c".into()), Some("w".into())).as_deref(), Some("c"));
}

#[test]
fn coming_back_draws_each_call_once() {
    let said = vec![
        Said::Text("a".into()),
        Said::Tool(call("1", "read"), Some(result("x"))),
        Said::Tool(call("2", "read"), None),
        Said::Tool(call("1", "read"), None),
        Said::Text(String::new()),
    ];
    assert_eq!(
        replay_round(&said, &vec!["2".to_string()]),
        vec![Again::Answer(0), Again::Card(1), Again::Result(1)]
    );
    assert!(tick_cards(&vec![]).is_empty());
}

#[test]
fn every_command_does_what_it_says() {
    let (commands, keys) = register_builtin_commands();
    assert_eq!(commands.len(), 18);
    assert_eq!(keys.len(), 23);
    assert_eq!((keys[0].lhs.as_str(), keys[0].mode), ("<C-r>", Mode::Normal));
    assert_eq!((keys[3].lhs.as_str(), keys[3].mode), ("<C-r>", Mode::Chat));
    assert_eq!((keys[22].lhs.as_str(), keys[22].command.as_str()), ("<C-v>", "chat.image.paste"));
    for (name, _) in COMMANDS {
        assert!(!matches!(run_builtin(name, true), Action::Unknown), "{name}");
    }
    for k in &keys {
        assert!(COMMANDS.iter().any(|(n, _)| *n == k.command), "{}", k.command);
    }
    assert!(matches!(run_builtin("chat.scroll_up", false), Action::Scroll(-1)));
    assert!(matches!(run_builtin("chat.read", true), Action::LeaveReading));
    assert!(matches!(run_builtin("chat.read", false), Action::EnterReading));
    assert!(matches!(run_builtin("edit.select_all", false), Action::SelectAll(Pane::Composer)));
    assert!(matches!(
        run_builtin("chat.toggle_card", false),
        Action::Say(MessageLevel::Info, "^S first: cards open while reading")
    ));
    assert!(matches!(run_builtin("nope", false), Action::Unknown));
    assert_eq!(key_target(&vec![], Some("anthropic")).as_deref(), Some("anthropic"));
    assert_eq!(key_target(&vec!["x".into()], None).as_deref(), Some("x"));
    assert_eq!(key_target(&vec![], None), None);
    assert_eq!(ask_key(&vec![], Some("x")), Ok("x".to_string()));
    assert_eq!(ask_key(&vec![], None), Err((MessageLevel::Warn, "no model is selected")));
    assert!(matches!(edit_queue(None, "d"), Unqueued::Say(MessageLevel::Info, "nothing queued")));
    let queued = Prompt { text: "q".into(), images: vec!["/a.png".into()] };
    assert!(matches!(edit_queue(Some(queued), "draft"),
        Unqueued::Back(t, v) if t == "q\ndraft" && v == vec!["/a.png".to_string()]));
    assert_eq!(seed_hints(true)[1].keys, "S-Enter");
}

#[test]
fn what_was_taken_back_keeps_what_was_being_written() {
    assert_eq!(taken_back("queued", "  \n"), "queued");
    assert_eq!(taken_back("queued", "draft"), "queued\ndraft");
    assert_eq!(took_off(0), "nothing attached");
    assert_eq!(took_off(1), "took off 1 image");
    assert_eq!(took_off(12), "took off 12 images");
    let mut row = vec![Attachment {
        path: "/a.png".into(),
        media_type: "image/png".into(),
        width: 1,
        height: 2,
        bytes: 3,
    }];
    assert_eq!(drop_attachment(&mut row), "took off png 1\u{d7}2 \u{b7} 3 B");
    assert_eq!(drop_attachment(&mut row), "nothing attached");
    assert!(copy_selection("", true, false).is_none());
    assert!(matches!(copy_or_say("", true, false),
        Err((MessageLevel::Warn, "nothing selected"))));
    assert!(copy_or_say("a", true, false).is_ok());
    let cut = copy_selection("a\nb", true, true).expect("something");
    assert_eq!((cut.delete, cut.said.as_str()), (false, "cut 2 lines"));
    let one = copy_selection("a", false, false).expect("something");
    assert_eq!((one.delete, one.said.as_str()), (false, "copied 1 line"));
}

#[test]
fn a_press_gives_up_the_nearest_thing_and_leaves_last() {
    let mut t = Turns::new();
    t.start_turn_in(session("a"), 0, 0);
    let here = session("a");
    let mut armed = Some(1);
    let p = interrupt(&mut armed, &mut t, &here, true, true, true, OnQuit::Stop, 2);
    assert!(matches!(p, Pressed::Copied) && armed.is_none());
    let p = interrupt(&mut armed, &mut t, &here, false, true, true, OnQuit::Stop, 2);
    assert!(matches!(p, Pressed::LeftReading));
    let p = interrupt(&mut armed, &mut t, &here, false, false, true, OnQuit::Stop, 2);
    assert!(matches!(p, Pressed::Interrupted(true)));
    let p = interrupt(&mut armed, &mut t, &here, false, false, true, OnQuit::Stop, 2);
    assert!(matches!(p, Pressed::Interrupted(false)));
    t.end(&here);
    let p = interrupt(&mut armed, &mut t, &here, false, false, true, OnQuit::Stop, 2);
    assert!(matches!(p, Pressed::Cleared));
    let p = interrupt(&mut armed, &mut t, &here, false, false, false, OnQuit::Detach, 10);
    assert!(matches!(p, Pressed::Armed("press ^C again to close this terminal, or ^Q")));
    let mut late = armed;
    let p =
        interrupt(&mut late, &mut t, &here, false, false, false, OnQuit::Stop, 10 + ARM_WINDOW);
    assert!(matches!(p, Pressed::Armed("press ^C again to quit, or ^Q")));
    let p = interrupt(&mut armed, &mut t, &here, false, false, false, OnQuit::Detach, 11);
    assert!(matches!(p, Pressed::Left(Exit::Detach)));
    assert_eq!(leave(OnQuit::Stop), Exit::Stop);
}

fn quiet() -> After {
    After {
        quitting: false,
        detaching: None,
        keys_touched: false,
        keys_pending: false,
        working: false,
        quota_due: false,
        pending_ui: false,
        timeoutlen: None,
    }
}

#[test]
fn a_clock_that_runs_is_not_set_again() {
    let mut p = Pulse::new();
    assert_eq!(Pulse::first(), Clock::Plan(Until::AfterTurn));
    assert_eq!((Clock::Frame.lasts(), Clock::Second.lasts()), (Some(16), Some(1_000)));
    assert_eq!((Clock::Keys(7).lasts(), Pulse::first().lasts()), (Some(7), None));
    let on = |p: &mut Pulse, mut a: After| match p.turn(&mut a) {
        Turned::On(v) => (v, a),
        Turned::End(_) => panic!("it goes on"),
    };
    let busy = After { working: true, pending_ui: true, quota_due: true, ..quiet() };
    let (v, left) = on(&mut p, busy);
    assert_eq!(
        v,
        vec![
            Chore::Wind(Clock::Second),
            Chore::Wind(Clock::Plan(Until::AfterTurn)),
            Chore::Wind(Clock::Frame)
        ]
    );
    assert_eq!(on(&mut p, left).0, vec![], "what is left behind is taken");
    assert_eq!(on(&mut p, busy).0, vec![Chore::Wind(Clock::Plan(Until::AfterTurn))]);
    let mut after = quiet();
    assert_eq!(p.ran_out(Clock::Frame, &mut after), vec![Chore::Flush]);
    let typed = After { keys_touched: true, keys_pending: true, timeoutlen: Some(-3), ..busy };
    assert_eq!(
        on(&mut p, typed).0,
        vec![
            Chore::Wind(Clock::Keys(0)),
            Chore::Wind(Clock::Plan(Until::AfterTurn)),
            Chore::Wind(Clock::Frame)
        ]
    );
    assert!(p.waiting);
    let half = After { keys_touched: true, keys_pending: true, ..quiet() };
    assert_eq!(on(&mut p, half).0, vec![Chore::Wind(Clock::Keys(500))]);
    let mut over = After { quitting: true, ..quiet() };
    match p.turn(&mut over) {
        Turned::End(v) => {
            assert_eq!(v, vec![Chore::SaveSessions, Chore::Flush, Chore::Shutdown])
        }
        Turned::On(_) => panic!("it ends"),
    }
}

#[test]
fn a_clock_that_runs_out_calls_for_what_it_was_set_for() {
    let mut p = Pulse { armed: true, waiting: true, ticking: true, backoff: 0 };
    let mut a = After { keys_pending: true, quota_due: true, ..quiet() };
    assert_eq!(
        p.ran_out(Clock::Second, &mut a),
        vec![Chore::DrawWorking, Chore::TickCards, Chore::TickFooter, Chore::ReportLive]
    );
    assert!(!p.ticking);
    assert_eq!(p.ran_out(Clock::Keys(500), &mut a), vec![Chore::FlushKeys]);
    assert!(!p.waiting && !a.keys_pending && a.quota_due);
    assert_eq!(
        p.ran_out(Clock::Plan(Until::AfterTurn), &mut a),
        vec![Chore::RefreshQuota, Chore::Wind(Clock::Plan(Until::Idle))]
    );
    assert!(!a.quota_due);
}

#[test]
fn a_terminal_that_leaves_is_sent_away_once_what_was_said_is_kept() {
    let mut p = Pulse::new();
    let mut a = After { detaching: Some(7), ..quiet() };
    match p.turn(&mut a) {
        Turned::On(v) => assert_eq!(
            v,
            vec![Chore::SaveSessions, Chore::Flush, Chore::Detach(7), Chore::ReportLiveNow]
        ),
        Turned::End(_) => panic!("the workspace stays"),
    }
    assert_eq!(a.detaching, None);
}

#[test]
fn a_plan_that_does_not_answer_is_left_alone_for_longer() {
    let mut p = Pulse::new();
    assert_eq!(p.polled(false, false, 10, 1000), Some(20));
    assert_eq!(p.polled(false, false, 10, 1000), Some(40));
    assert_eq!(p.polled(true, false, 10, 1000), None);
    assert_eq!(p.polled(false, true, 10, 1000), Some(80), "hard, where it said so");
    assert_eq!(p.backoff, 3);
    for _ in 0..9 {
        p.polled(false, false, 10, 1000);
    }
    assert_eq!(p.polled(false, false, 10, 1000), Some(640), "six doublings are the most");
    assert_eq!(p.polled(false, false, u64::MAX, u64::MAX), Some(u64::MAX));
    assert!(report_live(None, 0, 0, 0));
    assert!(!report_live(Some(5), 1, 1, 1_000_000_004));
    assert!(report_live(Some(5), 1, 2, 6));
    assert!(report_live(Some(5), 1, 1, 1_000_000_005));
}

#[test]
fn a_turn_is_followed_from_its_start_to_its_end() {
    let mut t = Turns::new();
    t.start_turn_in(session("a"), 0, 0);
    let mut record = Record {
        running_since: None,
        interrupted: true,
        unread: false,
        updated_at: 0,
        resume: None,
        context_window: None,
    };
    let a = session("a");
    let quiet = Around { queued: false, ..around(true) };
    let prompt = |text: &str, image: &str| Prompt { text: text.into(), images: vec![image.into()] };
    let mut queued = vec![prompt("and", "/a.png"), prompt("then", "/b.png")];
    assert_eq!(
        t.handle_agent_event(&a, Happened::TurnStarted, &mut record, &mut queued, quiet, 5).steps,
        vec![Step::SaveOne, Step::RedrawTranscript, Step::Broadcast]
    );
    assert_eq!((record.running_since, record.interrupted), (Some(5), false));
    t.handle_agent_event(&a, Happened::Token("hi".into()), &mut record, &mut queued, quiet, 5);
    t.handle_agent_event(&a, Happened::ToolStarted(call("1", "read")), &mut record, &mut queued, quiet, 5);
    let failed = ToolResult { content: "no".into(), is_error: true };
    assert_eq!(
        t.handle_agent_event(
            &a,
            Happened::ToolFinished(call("1", "read"), failed),
            &mut record,
            &mut queued,
            quiet,
            5
        )
        .steps,
        vec![Step::FinishCard, Step::DrawWorking, Step::Broadcast]
    );
    assert_eq!(t.running[0].round.said.len(), 2);
    let fine = ToolResult { content: "yes".into(), is_error: false };
    let done = Happened::ToolFinished(call("2", "edit"), fine);
    let counted = t.handle_agent_event(&a, done, &mut record, &mut queued, quiet, 5);
    assert_eq!(counted.steps[0], Step::Tally);
    t.handle_agent_event(&a, Happened::Committed, &mut record, &mut queued, quiet, 5);
    assert!(t.running[0].round.said.is_empty());
    let off = Around { on_screen: false, ..quiet };
    assert_eq!(queued.len(), 2, "what is queued waits for the end");
    let ended = t.handle_agent_event(&a, Happened::TurnEnded, &mut record, &mut queued, off, 9);
    assert!(ended.steps.contains(&Step::StartNext));
    let next = ended.next.expect("something was queued");
    assert_eq!(next.text, "and\n\nthen");
    assert_eq!(next.images, vec!["/a.png".to_string(), "/b.png".to_string()]);
    assert!(queued.is_empty());
    let over = ended.ended.expect("it was running");
    let names: Vec<&str> = over.round.counted.iter().map(|c| c.name.as_str()).collect();
    assert_eq!(names, vec!["edit"], "what failed changed nothing");
    assert!(t.running.is_empty());
    assert_eq!((record.running_since, record.unread, record.updated_at), (None, true, 9));
}
