//! What is worth interrupting somebody for, and how often.

use neosh::notify::quoting::{applescript_string, desktop_commands, powershell_string};
use neosh::notify::{
    collapse, Alert, AlertReason, AwayPolicy, DesktopPolicy, MessageLevel, Notifier, NotifyConfig,
    SessionId, BURST, REPEAT_AFTER, SECOND,
};

fn alert(body: &str) -> Alert {
    Alert { title: "neosh".into(), body: body.into(), level: MessageLevel::Info }
}

fn session(s: &str) -> SessionId {
    SessionId(s.to_string())
}

#[test]
fn a_reason_switched_off_is_not_offered() {
    let mut n = Notifier::new(NotifyConfig {
        when: vec!["question".into()],
        ..Default::default()
    });
    assert!(!n.offer(AlertReason::TurnDone, None, alert("done")));
    assert!(n.offer(AlertReason::Question, None, alert("asking")));
}

#[test]
fn one_turn_is_one_notification_however_many_times_it_ends() {
    let mut n = Notifier::new(NotifyConfig::default());
    let s = session("a");
    assert!(n.offer(AlertReason::TurnDone, Some(&s), alert("done")));
    assert!(!n.offer(AlertReason::TurnDone, Some(&s), alert("done")));
    // A different conversation is different news, and so is a different reason in the same
    // one: a question and a finish are two things to go and do.
    assert!(n.offer(AlertReason::TurnDone, Some(&session("b")), alert("done")));
    assert!(n.offer(AlertReason::Question, Some(&s), alert("asking")));
}

#[test]
fn a_burst_is_one_notification_that_says_how_many() {
    let mut n = Notifier::new(NotifyConfig::default());
    for i in 0..3 {
        n.offer(AlertReason::TurnDone, Some(&session(&i.to_string())), alert("finished"));
    }
    let out = n.flush().expect("something to say");
    assert!(out.body.contains("and 2 more"), "{}", out.body);
}

#[test]
fn one_alert_is_left_exactly_as_it_was() {
    let mut n = Notifier::new(NotifyConfig::default());
    n.offer(AlertReason::TurnDone, Some(&session("a")), alert("finished"));
    assert_eq!(n.flush().expect("something to say"), alert("finished"));
}

#[test]
fn the_loudest_level_in_a_burst_is_the_one_that_goes_out() {
    let mut n = Notifier::new(NotifyConfig::default());
    n.offer(AlertReason::TurnDone, Some(&session("a")), alert("finished"));
    n.offer(AlertReason::Failure, Some(&session("b")), Alert {
        title: "neosh".into(),
        body: "failed".into(),
        level: MessageLevel::Error,
    });
    assert_eq!(n.flush().expect("something to say").level, MessageLevel::Error);
}

#[test]
fn nothing_waiting_is_nothing_due() {
    let mut n = Notifier::new(NotifyConfig::default());
    assert!(n.due_in().is_none());
    assert!(n.take_due().is_none());
    assert!(n.flush().is_none());
}

#[test]
fn a_burst_is_not_due_the_moment_it_starts() {
    let mut n = Notifier::new(NotifyConfig::default());
    n.offer(AlertReason::TurnDone, Some(&session("a")), alert("finished"));
    assert!(n.due_in().is_some_and(|d| d > 0));
    assert!(n.take_due().is_none(), "the window has not closed yet");
}

#[test]
fn quoting_survives_a_message_that_contains_quotes() {
    assert_eq!(applescript_string(r#"say "hi""#), r#""say \"hi\"""#);
    assert_eq!(powershell_string("it's"), "'it''s'");
}

#[test]
fn the_same_news_is_news_again_after_a_while() {
    let mut n = Notifier::new(NotifyConfig::default());
    let s = session("a");
    assert!(n.offer_at(AlertReason::TurnDone, Some(&s), alert("done"), SECOND));
    assert!(!n.offer_at(AlertReason::TurnDone, Some(&s), alert("done"), SECOND + REPEAT_AFTER - 1));
    assert!(n.offer_at(AlertReason::TurnDone, Some(&s), alert("done"), SECOND + REPEAT_AFTER));
}

#[test]
fn over_many_offers_only_what_was_just_said_is_refused() {
    let mut n = Notifier::new(NotifyConfig::default());
    let at = |n: &mut Notifier, s: &str, now: u64| {
        n.offer_at(AlertReason::TurnDone, Some(&session(s)), alert("x"), now)
    };
    assert_eq!(n.due_in_at(0), None);
    // More conversations than are remembered, so that stale ones are let go.
    for i in 0..300u64 {
        assert!(at(&mut n, &format!("s{i}"), i));
    }
    assert!(n.due_in_at(0).is_some(), "something waits, so a wait is given");
    for i in 0..300u64 {
        assert!(!at(&mut n, &format!("s{i}"), 20_000_000_000 + i - 1));
    }
    assert!(at(&mut n, "s299", 20_000_000_299));
    assert!(!at(&mut n, "s299", 40_000_000_298));
    assert!(at(&mut n, "s0", 40_000_000_298));
    assert!(n.flush().is_some());
    assert_eq!(n.due_in_at(99_000_000_000), None, "and nothing waits once it is sent");
}

#[test]
fn a_burst_goes_out_when_its_wait_is_over() {
    let mut n = Notifier::new(NotifyConfig::default());
    n.offer_at(AlertReason::TurnDone, Some(&session("a")), alert("one"), 5);
    n.offer_at(AlertReason::TurnDone, Some(&session("b")), alert("two"), 6);
    assert_eq!(n.due_in_at(5), Some(BURST));
    assert_eq!(n.take_due_at(4 + BURST), None);
    let out = n.take_due_at(5 + BURST).expect("due");
    assert!(out.body.contains("and 1 more"), "{}", out.body);
    assert_eq!(n.due_in_at(5 + BURST), None);
}

#[test]
fn each_policy_reads_its_own_name() {
    assert_eq!(AwayPolicy::parse("focus"), Some(AwayPolicy::Focus));
    assert_eq!(AwayPolicy::parse("nope"), None);
    assert_eq!(DesktopPolicy::parse("when_detached"), Some(DesktopPolicy::WhenDetached));
    assert_eq!(DesktopPolicy::parse("always"), Some(DesktopPolicy::Always));
    for (i, a) in AlertReason::all().iter().enumerate() {
        for b in &AlertReason::all()[i + 1..] {
            assert_ne!(a.key(), b.key());
        }
    }
    assert!(collapse(vec![]).is_none());
}

#[test]
fn a_desktop_is_told_by_whichever_program_it_has() {
    let mut urgent = alert("it's \"done\"");
    urgent.level = MessageLevel::Error;
    let all = desktop_commands(&urgent);
    assert_eq!(all[0].program, "notify-send");
    assert_eq!(all[0].args, vec!["-a", "neosh", "-u", "critical", "neosh", "it's \"done\""]);
    assert_eq!(
        all[1].args[1],
        "display notification \"it's \\\"done\\\"\" with title \"neosh\""
    );
    assert_eq!(all[2].program, "terminal-notifier");
    assert!(all[3].args[3].contains("'it''s \"done\"'"));
}

#[test]
fn a_notifier_can_be_told_otherwise() {
    let mut n = Notifier::new(NotifyConfig::default());
    assert!(n.wants(AlertReason::TurnDone));
    n.configure(NotifyConfig { enabled: false, ..Default::default() });
    assert!(!n.config().enabled && !n.wants(AlertReason::TurnDone));
    assert!(!n.offer(AlertReason::TurnDone, None, alert("done")));
}
