//! What goes on screen: the transcript, its cards, the strip, the composer and the welcome.

use neosh::host::cards::{Leg, ToolResult, ToolState};
use neosh::host::chat::{Chat, Streaming};
use neosh::host::composer::{hint_row, reading_hints, refresh_composer, Composer, Hint, Place};
use neosh::host::kept::{
    attach, drop_hint, drop_segment, keep_hint, keep_segment, take_attachments, tear_down_plugin,
};
use neosh::host::history::{heads, standing, summed_calls, Standing, Told};
use neosh::host::keys::Mode;
use neosh::host::looking::{card_heads, lines_in};
use neosh::host::questions::{no_reply_row, StopReason};
use neosh::host::reading::SelectShape;
use neosh::host::screen::Row;
use neosh::host::status::{mode_word, refresh_status, Segment};
use neosh::host::toolcards::Finished;
use neosh::host::transcript::{transcript, Ask, Block, Replay};
use neosh::host::welcome::{draw_welcome, model_line, welcome_replaces};
use neosh::host::working::working_text;
use neosh::images::Attachment;
use neosh::notify::SessionId;

fn row(s: &str) -> Row {
    Row { text: s.into(), spans: vec![], band: None }
}

fn leg(id: &str) -> Leg {
    Leg {
        id: id.into(),
        name: "read".into(),
        input: "{}".into(),
        result: None,
        started: Some(10),
        took: None,
        exit: None,
    }
}

fn lines(c: &Chat) -> Vec<&str> {
    c.screen.lines.iter().map(|s| s.as_str()).collect()
}

#[test]
fn an_answer_goes_above_the_working_line() {
    let mut c = Chat::new();
    c.chat_question("|", &vec![], "why?");
    c.begin_working(vec![]);
    c.draw_working(row("working"));
    c.answer_text("because **so**");
    assert_eq!(lines(&c).last(), Some(&"working"));
    assert!(lines(&c).contains(&"because so"));
    c.answer_text(" it is");
    assert!(lines(&c).contains(&"because so it is"));
    c.close_answer();
    c.end_working();
    assert!(!lines(&c).contains(&"working"), "it leaves no trace");
}

#[test]
fn a_conversation_looks_the_same_live_and_replayed() {
    let mut live = Chat::new();
    live.chat_question("|", &vec![], "why?");
    live.begin_working(vec![]);
    for part in ["## A\n\n", "- b\n", "- c"] {
        live.answer_text(part);
    }
    live.close_turn(vec![], vec![], vec![], &StopReason::EndTurn);
    let again = transcript(
        "|",
        vec![
            (Block::Question("why?".into()), vec![]),
            (Block::Answer("## A\n\n- b\n- c".into()), vec![]),
        ],
        &vec![],
        true,
        false,
        false,
        "x",
    );
    // A replay leaves the blank row behind an answer that the next thing said would bring.
    let mut want = lines(&live);
    want.push("");
    assert_eq!(lines(&again), want);
}

#[test]
fn a_question_nothing_answered_is_told_so() {
    let mut c = Chat::new();
    c.chat_question("|", &vec![], "why?");
    c.begin_working(vec![]);
    c.close_turn(vec![], vec![], vec![], &StopReason::Cancelled);
    assert!(lines(&c).iter().any(|l| l.contains("interrupted")));
    assert_eq!(no_reply_row(&StopReason::MaxTokens).text, "the reply hit the output limit");
    assert_eq!(no_reply_row(&StopReason::Error("boom".into())).text, "boom");
    assert_eq!(no_reply_row(&StopReason::Refusal(None)).text, "the model declined to answer");
    assert_eq!(
        no_reply_row(&StopReason::EndTurn).text,
        "no reply \u{2014} the turn ended here"
    );
}

#[test]
fn a_card_holds_its_calls_and_opens_once_they_are_back() {
    let mut c = Chat::new();
    let at = c.draw_tool_card(leg("1"), true, row("read a"), true).expect("drawn");
    assert_eq!(lines(&c)[at], "read a");
    assert_eq!(c.draw_tool_card(leg("2"), true, row("read a, b"), true), Some(at));
    assert_eq!(c.cards.len(), 1);
    assert_eq!(c.draw_tool_card(leg("3"), false, row("run"), false), None);
    assert_eq!(c.toggle_card(0), None, "still running");
    let ok = || ToolResult { content: "x".into(), is_error: false };
    assert!(matches!(c.finish_card("1", ok(), 25, None), Finished::Redraw(0)));
    assert_eq!(c.cards[0].legs[0].took, Some(15));
    assert!(matches!(c.finish_card("1", ok(), 25, None), Finished::Already));
    assert!(matches!(c.finish_card("9", ok(), 25, None), Finished::Loose));
    c.finish_card("2", ok(), 30, None);
    assert_eq!(c.toggle_card(0), Some(at));
    assert!(c.cards[0].expanded);
    c.redraw_card(0, row("read a, b"), vec![row("one"), row("two")]);
    assert_eq!(c.cards[0].body, 2);
    assert_eq!(&lines(&c)[at..at + 3], ["read a, b", "one", "two"]);
}

#[test]
fn a_call_that_is_answered_twice_shows_one_answer() {
    let result = |s: &str| ToolResult { content: s.into(), is_error: false };
    let pieces = vec![
        (Block::Call(leg("1"), false, row("read a")), vec![]),
        (Block::Result("1".into(), result("one"), vec![row("  one")]), vec![]),
        (Block::Result("1".into(), result("two"), vec![row("  two"), row("  more")]), vec![]),
        (Block::Answer("done".into()), vec![]),
    ];
    let c = transcript("|", pieces, &vec![], true, false, false, "x");
    assert_eq!(lines(&c)[..4], ["read a", "  one", "", "done"], "as it is live");
    assert_eq!(c.cards[0].body, 1);
    assert_eq!(c.cards[0].legs[0].result.as_ref().map(|r| r.content.as_str()), Some("one"));
    // A run shows no answers, and what one of its calls had drawn goes.
    let pieces = vec![
        (Block::Call(leg("1"), true, row("read a")), vec![]),
        (Block::Result("1".into(), result("one"), vec![row("  one")]), vec![]),
        (Block::Call(leg("2"), true, row("read a, b")), vec![]),
        (Block::Result("2".into(), result("two"), vec![row("  two")]), vec![]),
    ];
    let c = transcript("|", pieces, &vec![], true, false, false, "x");
    assert_eq!(lines(&c), ["read a, b"]);
}

#[test]
fn a_call_looks_the_same_live_and_replayed() {
    let result = || ToolResult { content: "x".into(), is_error: false };
    let mut live = Chat::new();
    live.draw_tool_card(leg("1"), false, row("read a ..."), true);
    assert!(matches!(live.finish_card("1", result(), 25, None), Finished::Redraw(0)));
    live.redraw_card(0, row("read a"), vec![row("  x")]);
    let pieces = vec![
        (Block::Call(leg("1"), false, row("read a")), vec![]),
        (Block::Result("1".into(), result(), vec![row("  x")]), vec![]),
    ];
    let again = transcript("|", pieces, &vec![], true, false, false, "x");
    assert_eq!(lines(&live), lines(&again));
    assert_eq!((live.cards[0].row, live.cards[0].body), (again.cards[0].row, again.cards[0].body));
    // All that is left of its having been live is the band of a card that has landed.
    assert_eq!(live.screen.marks[..again.screen.marks.len()], again.screen.marks[..]);
    assert_eq!(live.screen.marks.len(), again.screen.marks.len() + 1);
}

#[test]
fn an_answer_is_coloured_the_same_live_and_replayed() {
    let mut live = Chat::new();
    for part in ["# A **b", "** c\n\n", "`d", "` e\n- f"] {
        live.answer_text(part);
    }
    live.close_answer();
    let text = "# A **b** c\n\n`d` e\n- f";
    let again = transcript("|", vec![(Block::Answer(text.into()), vec![])], &vec![], true, false, false, "x");
    assert_eq!(live.screen.marks, again.screen.marks);
    // A piece that leaves a row as it reads is not drawn, and neither are its colours.
    let mut stale = Chat::new();
    stale.answer_text("a*");
    stale.answer_text("*`*`**");
    stale.close_answer();
    assert_eq!(lines(&stale), ["a*"]);
    assert!(stale.screen.marks.is_empty());
}

#[test]
fn a_question_with_pictures_looks_the_same_live_and_replayed() {
    let mut live = Chat::new();
    live.chat_question("|", &vec!["[png]".into(), "[jpeg]".into()], "why?");
    let pieces = vec![
        (Block::Image("[png]".into()), vec![]),
        (Block::Image("[jpeg]".into()), vec![]),
        (Block::Question("why?".into()), vec![]),
    ];
    let again = transcript("|", pieces, &vec![], true, false, false, "x");
    assert_eq!(lines(&live), lines(&again));
    assert_eq!(live.screen.marks, again.screen.marks);
}

#[test]
fn rows_put_above_something_settle_an_open_answer() {
    let mut c = Chat::new();
    c.chat_question("|", &vec![], "why?");
    c.answer_text("because");
    assert!(c.answer.is_some());
    assert_eq!(c.place_block(Some(0), vec![row("a plan")]), 1);
    assert!(c.answer.is_none());
    assert_eq!(lines(&c)[0], "a plan");
    assert_eq!(lines(&c).last(), Some(&"because"));
}

#[test]
fn a_header_says_how_its_calls_went_the_first_time_it_is_drawn() {
    let result = |s: &str, is_error: bool| ToolResult { content: s.into(), is_error };
    let history = vec![
        Told::Question,
        Told::Call("1".into()),
        Told::Call("2".into()),
        Told::Call("3".into()),
        Told::Result("1".into(), result("a\nb\n", false)),
        Told::Result("2".into(), result("no", true)),
        Told::Picture,
        Told::Question,
        Told::Answer,
    ];
    let done = Standing { state: ToolState::Done, output: Some(2) };
    let failed = Standing { state: ToolState::Failed, output: Some(1) };
    let running = Standing { state: ToolState::Running, output: None };
    assert_eq!(standing(&history, "1"), done);
    assert_eq!(heads(&history, &vec![leg("2"), leg("3")]), vec![failed, running]);
    let mut replay = Replay::new();
    let asks = |r: &Replay, n: usize, grouped: bool| format!("{:?}", r.asks(&history, n, grouped, true));
    assert_eq!(asks(&replay, 1, true), format!("{:?}", Ask::Header(vec![done])));
    replay.step("|", Block::Call(leg("1"), true, row("read a")), &vec![], true);
    assert_eq!(asks(&replay, 2, true), format!("{:?}", Ask::Header(vec![done, failed])));
    assert_eq!(asks(&replay, 2, false), format!("{:?}", Ask::Header(vec![failed])));
    // A result is drawn with what its call was asked with, and without where the call has no card.
    assert!(matches!(replay.asks(&history, 5, false, true), Ask::Body(Some(2))));
    assert!(matches!(replay.asks(&history, 5, false, false), Ask::Body(None)));
    assert!(matches!(replay.asks(&history, 4, false, false), Ask::Nothing));
    // A picture and the words under it are one question.
    assert!(matches!(replay.asks(&history, 6, false, true), Ask::Summary(v) if v == vec![1]));
    assert!(matches!(replay.asks(&history, 7, false, true), Ask::Nothing));
    // The summary before the next question counts what came back, and failures are not changes.
    assert_eq!(summed_calls(&history, 6, true), vec![1]);
    assert_eq!(summed_calls(&history, 6, false), Vec::<usize>::new());
    assert_eq!(summed_calls(&history, 9, true), Vec::<usize>::new(), "a question starts anew");
}

#[test]
fn an_interrupted_conversation_says_where_it_stopped() {
    let pieces = || vec![(Block::Question("why?".into()), vec![])];
    let cut = transcript("|", pieces(), &vec![], true, false, true, "\u{2717}");
    assert!(lines(&cut)
        .contains(&"\u{2717} the workspace stopped while this turn was running"));
    let going = transcript("|", pieces(), &vec![], true, true, true, "\u{2717}");
    assert!(!lines(&going).iter().any(|l| l.contains("stopped")));
    let empty = transcript("|", vec![], &vec![], true, false, false, "x");
    assert!(lines(&empty).is_empty());
}

#[test]
fn the_working_line_says_what_is_waited_for() {
    assert_eq!(
        working_text("*", "Thinking", None, 5, 0).text,
        "* Thinking\u{2026}  5s  \u{b7}  esc to interrupt"
    );
    let noted = working_text("*", "Thinking", Some("Running read"), 65, 2).text;
    assert!(noted.starts_with("* Running read\u{2026}  1m"), "{noted}");
    assert!(noted.contains("2 queued"), "{noted}");
}

fn segment(key: &str, text: &str, priority: i32) -> Segment {
    Segment { key: key.into(), text: text.into(), hl: None, keys: None, right: false, priority }
}

#[test]
fn the_least_important_part_of_the_strip_goes_first() {
    let segs = vec![segment("a:x", "keep", 0), segment("b:y", "droppable-and-long", 9)];
    let wide = refresh_status("chat", &segs, 80).text;
    assert!(wide.contains("keep") && wide.contains("droppable-and-long"), "{wide}");
    let narrow = refresh_status("chat", &segs, 16).text;
    assert!(narrow.contains("keep") && !narrow.contains("droppable"), "{narrow}");
    assert_eq!(mode_word(true, false, false, SelectShape::Line, Mode::Chat), "key");
}

#[test]
fn the_composer_says_what_the_keys_do() {
    let none: Vec<String> = vec![];
    let c = Composer {
        ascii: false,
        width: 40,
        lines: 1,
        empty: true,
        borrowed: false,
        running: false,
        attached: &none,
        queued: &none,
    };
    let chrome = refresh_composer(&c, None, None);
    assert!(chrome.iter().any(|x| x.place == Place::Above));
    let hint = |key: &str, keys: &str, label: &str, priority| Hint {
        key: key.into(),
        keys: keys.into(),
        label: label.into(),
        priority,
    };
    let hints = vec![hint("b", "^B", "later", 5), hint("a", "^A", "first", 0)];
    let said: String = hint_row(true, &hints, 80)
        .expect("a row")
        .iter()
        .map(|k| k.text.clone())
        .collect();
    assert!(said.find("first").expect("there") < said.find("later").expect("there"), "{said}");
    assert!(hint_row(false, &hints, 80).is_none());
    let keys = reading_hints(None, false, SelectShape::Exclusive, 12, None, "Tab", 80);
    assert_eq!(keys[0].text, "12  ");
}

#[test]
fn the_welcome_names_the_model_and_the_directory() {
    let rows = draw_welcome(false, 80, "a/b", "~/w", true, false);
    assert!(rows.iter().any(|r| r.text == "  model      a/b"));
    assert!(rows.iter().any(|r| r.text.contains("~/w")));
    assert_eq!(model_line(Some(("a", "b")), Some("plan")), "a/b  \u{b7}  plan");
    assert_eq!(model_line(None, None), "nothing configured \u{2014} run `neosh --list-models`");
    assert_eq!(welcome_replaces(&vec![String::new()], 0), Some(1));
    assert_eq!(welcome_replaces(&vec!["x".into()], 0), None);
    assert_eq!(welcome_replaces(&vec!["x".into(), "y".into()], 2), Some(2));
}

#[test]
fn reasoning_streams_above_the_working_line_and_breaks_for_an_answer() {
    let mut c = Chat::new();
    c.begin_working(vec![]);
    c.draw_working(row("working"));
    c.stream_into_chat(Streaming::Thinking, "so\nfar ", vec![]);
    c.stream_into_chat(Streaming::Thinking, "so good", vec![]);
    c.draw_working(row("working"));
    assert_eq!(lines(&c), ["so", "far so good", "working"]);
    c.end_working();
    c.answer_text("done");
    c.stream_into_chat(Streaming::Thinking, "hm", vec![]);
    assert_eq!(lines(&c), ["so", "far so good", "", "done", "hm"]);
    let mut raw = Chat::new();
    raw.answer_raw("**a", vec![]);
    raw.answer_raw("**\nb", vec![]);
    assert_eq!(lines(&raw), ["**a**", "b"]);
}

#[test]
fn a_card_shows_how_its_calls_stand() {
    let mut c = Chat::new();
    c.draw_tool_card(leg("1"), true, row("read"), true);
    let heads = card_heads(&c.cards[0], 30);
    assert_eq!((heads[0].took, heads[0].output), (Some(20), None));
    let failed = ToolResult { content: "a\nb\n\n".into(), is_error: true };
    c.finish_card("1", failed, 25, Some(2));
    let heads = card_heads(&c.cards[0], 99);
    assert_eq!(heads[0].state, ToolState::Failed);
    assert_eq!((heads[0].took, heads[0].exit, heads[0].output), (Some(15), Some(2), Some(2)));
    assert_eq!(lines_in("\n \n"), 0);
}

#[test]
fn what_a_plugin_put_on_a_row_goes_with_it() {
    let mut hints = vec![];
    keep_hint(&mut hints, "git", "b", "^B".into(), "branch".into(), 1);
    keep_hint(&mut hints, "gitx", "b", "^X".into(), "other".into(), 2);
    keep_hint(&mut hints, "git", "b", "^G".into(), "branch".into(), 3);
    assert_eq!(hints.len(), 2);
    assert_eq!((hints[0].key.as_str(), hints[0].keys.as_str()), ("git:b", "^G"));
    let mut segments = vec![];
    keep_segment(&mut segments, "git", "s", segment("", "main", 0));
    keep_segment(&mut segments, "git", "s", segment("", "next", 0));
    assert_eq!(segments.len(), 1);
    assert_eq!((segments[0].key.as_str(), segments[0].text.as_str()), ("git:s", "next"));
    drop_segment(&mut segments, "git", "nope");
    tear_down_plugin(&mut hints, &mut segments, "git");
    assert!(segments.is_empty());
    assert_eq!(hints.len(), 1);
    drop_hint(&mut hints, "gitx", "b");
    assert!(hints.is_empty());
}

#[test]
fn what_is_attached_is_taken_once() {
    let a = SessionId("a".into());
    let picture = |bytes| Attachment {
        path: "/p.png".into(),
        media_type: "image/png".into(),
        width: 1,
        height: 1,
        bytes,
    };
    let mut rows = vec![];
    attach(&mut rows, &a, picture(1));
    attach(&mut rows, &SessionId("b".into()), picture(2));
    attach(&mut rows, &a, picture(3));
    assert_eq!(take_attachments(&mut rows, &a).len(), 2);
    assert!(take_attachments(&mut rows, &a).is_empty());
    assert_eq!(rows.len(), 1);
}
