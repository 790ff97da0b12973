//! Reading the transcript, searching it, and what borrows the composer.

use neosh::host::calls::ApiError;
use neosh::host::composer::draft_changed;
use neosh::host::chat::Chat;
use neosh::host::copying::{code_rows, copy_rows, header_rows, yank_code, Copied};
use neosh::host::inputs::{handle_input, pasted_instead, Arrived, Deed, Input};
use neosh::host::keys::{
    handle_unbound_key, Composing, CursorMotion, Edit, KeyCode, KeyPress, Mode, Mods, Unbound,
};
use neosh::host::looking::{
    drop_selection, in_order, search_step, search_word, toggle_card_here, yank_over, yank_text, Stepped, Yank,
};
use neosh::host::prompts::{
    begin_secret, masked, rubbed_out, say_stored, set_composer, KeyFor, SearchPrompt, Stored, Typed,
};
use neosh::host::reading::{object_for, Act, Motion, Object, Pending, Reader, SelectShape};
use neosh::host::search::{highlight_matches, hits, search_from, steps_forward};
use neosh::host::swarm::Waiting;
use neosh::host::view::{
    chat_width, code_block_at, follow_cursor, keeps_column, place_cursor_line, reading_by,
    reading_page, reading_scroll, reading_to_block, reading_to_turn, say_copied, yank_line,
    yank_turn,
    scroll_chat, select_as, times, turn_or_say, turn_span, yank_rows, Scroll, Selecting,
};
use neosh::notify::MessageLevel;

fn press(code: KeyCode) -> KeyPress {
    KeyPress { code, mods: Mods { ctrl: false, alt: false, shift: false } }
}

fn typed(c: &str) -> KeyPress {
    press(KeyCode::Char(c.into()))
}

fn with_ctrl(c: &str) -> KeyPress {
    KeyPress {
        code: KeyCode::Char(c.into()),
        mods: Mods { ctrl: true, alt: false, shift: false },
    }
}

fn texts(v: &[&str]) -> Vec<String> {
    v.iter().map(|s| s.to_string()).collect()
}

#[test]
fn a_key_that_nothing_claimed_goes_to_the_composer() {
    let c = Composing {
        empty: false,
        blank: false,
        attached: false,
        first_line: true,
        last_line: true,
    };
    assert_eq!(handle_unbound_key(&press(KeyCode::Enter), Mode::Chat, c), Unbound::Send);
    assert_eq!(handle_unbound_key(&press(KeyCode::Enter), Mode::Normal, c), Unbound::Nothing);
    assert_eq!(handle_unbound_key(&press(KeyCode::Esc), Mode::Normal, c), Unbound::Interrupt);
    assert_eq!(handle_unbound_key(&typed("x"), Mode::Chat, c), Unbound::Insert);
    assert_eq!(
        handle_unbound_key(&press(KeyCode::Backspace), Mode::Chat, c),
        Unbound::Edit(Edit::DeleteBack)
    );
    assert_eq!(
        handle_unbound_key(&press(KeyCode::Left), Mode::Chat, c),
        Unbound::Move(CursorMotion::Left, false)
    );
    let blank = Composing { blank: true, empty: true, attached: true, ..c };
    assert_eq!(
        handle_unbound_key(&press(KeyCode::Backspace), Mode::Chat, blank),
        Unbound::DropAttachment
    );
}

#[test]
fn a_chord_waits_for_one_more_key_and_a_count_is_spent() {
    let mut r = Reader::new();
    r.reading_key(&typed("g"), false, false, 10);
    assert_eq!(r.pending, Some(Pending::G));
    assert_eq!(r.reading_key(&typed("g"), false, false, 10), Act::Go(Motion::BufStart, 1, false));
    assert_eq!(r.pending, None);
    r.reading_key(&typed("1"), false, false, 10);
    r.reading_key(&typed("2"), false, false, 10);
    assert_eq!(r.count, 12);
    assert_eq!(r.reading_key(&typed("j"), false, false, 10), Act::Go(Motion::Down, 12, false));
    assert_eq!(r.count, 0);
    r.reading_key(&typed("y"), false, false, 10);
    assert_eq!(r.reading_key(&typed("c"), false, false, 10), Act::YankCode);
    r.reading_key(&typed("y"), false, false, 10);
    assert_eq!(r.reading_key(&typed("w"), false, false, 10), Act::YankOver(Motion::WordRight(false), 1));
    assert_eq!(object_for("("), Some(Object::Pair('(', ')')));
    assert_eq!(object_for("x"), None);
    assert_eq!(r.reading_key(&press(KeyCode::Esc), true, false, 10), Act::DropSelection);
    assert_eq!(r.reading_key(&press(KeyCode::Esc), false, true, 10), Act::ClearSearch);
    assert_eq!(r.reading_key(&press(KeyCode::Esc), false, false, 10), Act::Leave);
}

#[test]
fn a_waiting_key_is_spent_by_the_next_one_whatever_it_is() {
    let chord = |c: &str| {
        let mut key = typed(c);
        key.mods.ctrl = true;
        key
    };
    // A chord that means nothing here, and one that does.
    for (c, act) in [("a", Act::Nothing), ("e", Act::Scroll(1))] {
        let mut r = Reader::new();
        r.reading_key(&typed("g"), false, false, 10);
        assert_eq!(r.reading_key(&chord(c), false, false, 10), act);
        assert_eq!(r.pending, None);
        assert_eq!(r.reading_key(&typed("g"), false, false, 10), Act::Refresh, "a new pair opens");
        assert_eq!(r.pending, Some(Pending::G));
    }
    // The digits of a count belong to the key after them.
    let mut r = Reader::new();
    r.reading_key(&typed("y"), false, false, 10);
    r.reading_key(&typed("5"), false, false, 10);
    assert_eq!(r.reading_key(&typed("j"), false, false, 10), Act::YankOver(Motion::Down, 5));
}

#[test]
fn a_search_wraps_and_minds_case_only_where_you_do() {
    let lines = texts(&["one Two", "two", "\u{1f389} two two"]);
    assert_eq!(search_from(&lines, "two", (0, 0), true, true), Some((0, 4)));
    assert_eq!(search_from(&lines, "Two", (1, 0), true, true), Some((0, 4)));
    assert_eq!(search_from(&lines, "two", (2, 5), true, false), Some((2, 9)));
    assert_eq!(search_from(&lines, "two", (0, 4), false, false), Some((2, 9)));
    assert_eq!(search_from(&lines, "", (0, 0), true, true), None);
    assert_eq!(search_from(&lines, "three", (0, 0), true, true), None);
    assert_eq!(hits("a-a-a", "a"), vec![0, 2, 4]);
    assert_eq!(highlight_matches(&lines, "two").len(), 4);
    assert!(steps_forward(true, false) && !steps_forward(true, true));
}

#[test]
fn a_search_that_goes_on_says_when_it_cannot() {
    assert!(matches!(search_step("", None), Stepped::Say(MessageLevel::Info, s)
        if s == "nothing to search for yet \u{2014} `/` starts one"));
    assert!(matches!(search_step("a\"", None), Stepped::Say(MessageLevel::Warn, s)
        if s == "no more matches for \"a\\\"\""));
    assert!(matches!(search_step("a", Some((1, 2))), Stepped::To((1, 2))));
    assert!(matches!(search_word(None, None), Stepped::Say(_, s) if s == "no word under the cursor"));
    assert!(matches!(search_word(Some("w"), None), Stepped::Say(_, s) if s == "only match for \"w\""));
    assert_eq!(toggle_card_here(None), Some("the cursor is not on a tool call"));
    assert_eq!(toggle_card_here(Some(false)), Some("still running \u{2014} nothing to show yet"));
    assert_eq!(toggle_card_here(Some(true)), None);
}

#[test]
fn a_motion_that_spans_rows_takes_whole_ones() {
    assert!(matches!(yank_over(Motion::Down, (3, 5), (1, 0)), Yank::Rows(1, 4, "the lines")));
    assert!(matches!(yank_over(Motion::Down, (3, 5), (3, 0)), Yank::Rows(3, 4, "the line")));
    assert!(matches!(
        yank_over(Motion::WordRight(false), (3, 5), (3, 9)),
        Yank::Text((3, 5), (3, 9))
    ));
    assert_eq!(in_order((2, 1), (1, 9)), ((1, 9), (2, 1)));
    assert_eq!(yank_text("", "it").1, "nothing to copy");
    assert_eq!(yank_text("a\nb", "it").1, say_copied("it", 2));
    assert_eq!(say_copied("the turn", 1), "copied the turn \u{2014} 1 line");
    let lines = texts(&["  a", "b", ""]);
    assert_eq!(yank_rows(&lines, 0, 2, true), Some(("a\nb".into(), 2)));
    assert_eq!(yank_rows(&lines, 2, 9, false), None);
    assert_eq!(times(Motion::BufEnd, 7), 1);
    assert_eq!(times(Motion::Down, 7), 7);
}

#[test]
fn the_window_follows_the_cursor_and_pages_to_the_end() {
    assert_eq!(scroll_chat(Scroll::Up, None, 100, Some(10)), Some(80));
    assert_eq!(scroll_chat(Scroll::Up, Some(3), 100, Some(10)), Some(0));
    assert_eq!(scroll_chat(Scroll::Down, Some(20), 100, Some(10)), Some(30));
    assert_eq!(scroll_chat(Scroll::Down, Some(80), 100, Some(10)), None);
    assert_eq!(scroll_chat(Scroll::Follow, Some(3), 100, None), None);
    assert_eq!(follow_cursor(5, Some(10), 100, 0, 10), Some(5));
    assert_eq!(follow_cursor(25, Some(10), 100, 0, 10), Some(16));
    assert_eq!(follow_cursor(15, Some(10), 100, 0, 10), None);
    assert_eq!(reading_scroll(1, 10, 100, 10, 10), (11, 11));
    assert_eq!(select_as(true, SelectShape::Line, SelectShape::Line), Selecting::Drop);
    assert_eq!(select_as(true, SelectShape::Line, SelectShape::Inclusive), Selecting::Change);
}

#[test]
fn turns_and_blocks_are_places_to_go() {
    let lines = texts(&["\u{2502} q", "a", "", "\u{2502} r", "b"]);
    assert_eq!(reading_to_turn(&lines, "\u{2502}", 1, true), Some(3));
    assert_eq!(reading_to_turn(&lines, "\u{2502}", 4, false), Some(3));
    assert_eq!(turn_or_say(&lines, "\u{2502}", 1, true), Ok(3));
    assert_eq!(turn_or_say(&lines, "\u{2502}", 99, true), Err((MessageLevel::Info, "no later turn")));
    assert_eq!(turn_or_say(&lines, "\u{2502}", 0, false), Err((MessageLevel::Info, "no earlier turn")));
    assert_eq!(turn_span(&lines, "\u{2502}", 1), (0, 3));
    assert_eq!(turn_span(&lines, "\u{2502}", 4), (3, 5));
    let code = vec![false, false, true, true, false];
    let header = vec![false, true, false, false, false];
    assert_eq!(code_block_at(&code, &header, 1), Some((2, 4)));
    assert_eq!(code_block_at(&code, &header, 0), None);
    assert_eq!(reading_to_block(&vec![false, false, true, false], 0, true), 3);
}

#[test]
fn a_key_is_typed_without_being_shown() {
    let mut p = None;
    let known = |accepts, present| Some(KeyFor { label: "Lab".into(), accepts, present });
    let ask = |p: &mut Option<_>, k, replace| {
        begin_secret(p, "lab".into(), k, replace, "draft".into(), Some(Waiting {
            plugin: "p".into(),
            request: 1,
        }))
    };
    assert!(matches!(ask(&mut p, None, false), Err(ApiError::NotFound(s)) if s == "instance lab"));
    assert!(matches!(ask(&mut p, known(false, false), false), Err(ApiError::InvalidArgument(s))
        if s == "lab signs in on its own \u{2014} it has nowhere to put a key"));
    assert!(matches!(ask(&mut p, known(true, true), false), Err(ApiError::InvalidArgument(s))
        if s == "lab already has a key \u{2014} pass `replace` to change it"));
    assert!(ask(&mut p, known(true, true), true).is_ok());
    assert!(matches!(ask(&mut p, known(true, false), false), Err(ApiError::Busy(s))
        if s == "a key is already being entered"));
    let mut s = p.take().expect("asked");
    s.secret_paste("  ab\u{301}c \n");
    assert_eq!(s.render_secret(), "key for Lab  \u{2022}\u{2022}\u{2022}");
    assert_eq!(s.secret_key(&press(KeyCode::Backspace)), Typed::Changed);
    assert_eq!(s.value, "ab\u{301}");
    assert_eq!(s.secret_key(&press(KeyCode::Backspace)), Typed::Changed);
    assert_eq!(s.value, "a", "the accent goes with its letter");
    assert_eq!(s.secret_key(&typed("z")), Typed::Changed);
    assert_eq!(s.secret_key(&with_ctrl("x")), Typed::Nothing);
    assert_eq!(s.secret_key(&with_ctrl("c")), Typed::Cancel);
    assert_eq!(s.secret_key(&press(KeyCode::Enter)), Typed::Submit);
    let done = s.finish_secret(true);
    assert_eq!((done.store.as_deref(), done.draft.as_str()), (Some("az"), "draft"));
    assert_eq!(done.waiting.map(|w| w.request), Some(1));
    assert_eq!(masked("L", 40), format!("key for L  {} +8", "\u{2022}".repeat(32)));
    assert_eq!(say_stored("Lab", None), (MessageLevel::Warn, "nothing entered".into()));
    assert_eq!(say_stored("Lab", Some(Stored::Keychain)).1, "Lab: key saved to the keychain");
    assert!(say_stored("Lab", Some(Stored::Session)).1.starts_with("Lab: key kept for this run only"));
    assert_eq!(rubbed_out(""), "");
}

#[test]
fn a_key_that_is_blank_or_given_up_is_not_kept() {
    let mut p = None;
    let known = Some(KeyFor { label: "L".into(), accepts: true, present: false });
    begin_secret(&mut p, "l".into(), known, false, "d".into(), None).expect("asked");
    let mut s = p.take().expect("asked");
    s.secret_key(&typed(" "));
    assert_eq!(s.secret_key(&with_ctrl("u")), Typed::Changed);
    assert!(s.value.is_empty());
    assert!(s.finish_secret(true).store.is_none());
}

#[test]
fn a_search_is_typed_and_gives_the_composer_back() {
    let lines = texts(&["alpha", "beta", "gamma"]);
    let mut p = SearchPrompt::begin_search(false, (0, 0), "draft".into());
    assert_eq!(p.render_search(), "/");
    assert_eq!(p.search_key(&typed("m")), Typed::Changed);
    assert_eq!(p.look(&lines), Some((2, 2)));
    p.search_paste(" m ");
    assert_eq!(p.render_search(), "/mm");
    let done = p.finish_search(true, &lines);
    assert_eq!((done.jump, done.draft.as_str()), (Some((2, 2)), "draft"));
    assert_eq!(done.kept, Some(("mm".into(), false)));
    let mut none = SearchPrompt::begin_search(true, (1, 0), String::new());
    assert_eq!(none.search_key(&press(KeyCode::Backspace)), Typed::Cancel);
    none.search_key(&typed("q"));
    assert_eq!(none.render_search(), "?q");
    let done = none.finish_search(true, &lines);
    assert_eq!(done.said.as_deref(), Some("no match for \"q\""));
    let given_up = SearchPrompt::begin_search(false, (1, 3), String::new()).finish_search(false, &lines);
    assert_eq!((given_up.jump, given_up.kept), (Some((1, 3)), None));
}

#[test]
fn a_draft_leaves_the_caret_at_its_end() {
    assert_eq!(set_composer(""), (0, 0));
    assert_eq!(set_composer("one\n\u{e9}t\u{e9}"), (1, 5));
    assert_eq!(set_composer("one\n"), (0, 0));
}

#[test]
fn small_moves_come_to_places() {
    assert_eq!(reading_by(0), None);
    assert_eq!(reading_by(-3), Some((Motion::Up, 3)));
    assert_eq!(reading_by(i64::MIN), Some((Motion::Up, u32::MAX)));
    assert_eq!(reading_by(5), Some((Motion::Down, 5)));
    assert_eq!(place_cursor_line(10, 4), 6);
    assert_eq!(place_cursor_line(2, 4), 0);
    assert_eq!(reading_page(Some(0), Some(9)), 9);
    assert_eq!(reading_page(Some(4), Some(9)), 4);
    assert_eq!(reading_page(None, None), 20);
    assert_eq!(chat_width(None), 80);
    assert_eq!(chat_width(Some(3)), 24);
    let lines = texts(&["\u{2502} q", "a", "\u{2502} r"]);
    assert_eq!(yank_turn(&lines, "\u{2502}", 1), Some(("\u{2502} q\na".into(), 2)));
    assert_eq!(yank_line(&lines, 1), Some(("a".into(), 1)));
    assert!(keeps_column(Motion::LineEnd) && !keeps_column(Motion::Left));
    let mut last = None;
    drop_selection(&mut last, None, (0, 0), SelectShape::Line);
    assert!(last.is_none());
    drop_selection(&mut last, Some((1, 2)), (3, 4), SelectShape::Line);
    assert_eq!(last.map(|l| (l.anchor, l.cursor)), Some(((1, 2), (3, 4))));
    assert!(draft_changed("a", "b", false));
}

#[test]
fn code_is_found_by_its_colours() {
    let mut c = Chat::new();
    c.answer_text("say `x`\n\n```rust\nfn a() {}\n\nb\n```\nend");
    c.close_answer();
    let rows: Vec<&str> = c.screen.lines.iter().map(|l| l.as_str()).collect();
    let at = rows.iter().position(|l| *l == "  fn a() {}").expect("drawn");
    let code = code_rows(&c.screen);
    assert!(code[at] && !code[at - 1], "the language line is not code");
    assert!(header_rows(&c.screen)[at - 1]);
    assert!(!code[0], "back-ticks in a sentence are not a block");
    for row in [at - 1, at, at + 1, at + 2] {
        match yank_code(&c.screen, row) {
            Copied::Copy(text, said) => {
                assert_eq!(text, "fn a() {}\n\nb");
                assert_eq!(said, "copied the code block \u{2014} 3 lines");
            }
            other => panic!("{other:?}"),
        }
    }
    assert!(matches!(yank_code(&c.screen, 0),
        Copied::Refuse(s) if s == "the cursor is not in a code block"));
    assert!(matches!(copy_rows(&c.screen.lines, 1, 2, "the line", false),
        Copied::Refuse(s) if s == "nothing to copy \u{2014} no the line here"));
}

#[test]
fn a_window_moves_as_far_as_there_is() {
    assert_eq!(reading_scroll(i64::MAX, 3, 10, 4, 3), (9, 9));
    assert_eq!(reading_scroll(i64::MIN, 3, 10, 4, 9), (0, 3));
}

fn arrived() -> Arrived {
    Arrived { secret: false, search: false, reading: false, scrolled: false, loading: false }
}

#[test]
fn each_input_does_what_it_does_where_it_arrives() {
    let does = |i: Input, pasted: Option<&str>, at: Arrived| {
        format!("{:?}", handle_input(i, pasted.map(|p| p.to_string()), at).does)
    };
    assert_eq!(does(Input::Key, None, arrived()), "[FeedKey, RefreshComposer]");
    let secret = Arrived { secret: true, search: true, ..arrived() };
    assert_eq!(does(Input::Key, None, secret), "[SecretKey]");
    assert_eq!(does(Input::Paste("k".into()), Some("/a.png"), secret), "[SecretPaste(\"k\")]");
    let search = Arrived { search: true, ..arrived() };
    assert_eq!(does(Input::Paste("k".into()), None, search), "[SearchPaste(\"k\")]");
    assert_eq!(does(Input::Resize, None, search), "[ScrollComposer, DrawWelcome]");
    let reading = Arrived { reading: true, ..arrived() };
    assert_eq!(
        does(Input::Paste("t".into()), None, reading),
        "[LeaveReading, Insert(\"t\"), RefreshComposer]"
    );
    assert_eq!(
        does(Input::Paste("t".into()), Some("/a.png"), arrived()),
        "[Attach(\"/a.png\", \"t\"), RefreshComposer]"
    );
    assert!(pasted_instead(true, "t".into()).is_none());
    assert!(matches!(pasted_instead(false, "t".into()), Some(Deed::Insert(s)) if s == "t"));
    let scrolled = Arrived { scrolled: true, ..arrived() };
    assert_eq!(
        does(Input::Viewport(true, 7, false), None, scrolled),
        "[SetViewport, FollowTop(7), DrawWelcome, RefreshComposer]"
    );
    assert_eq!(does(Input::Viewport(false, 7, false), None, scrolled), "[SetViewport, RefreshComposer]");
    assert_eq!(
        does(Input::Attached, None, arrived()),
        "[DropQueued, Republish, DrawWelcome, TellAttached, ReportLiveNow, RefreshComposer]"
    );
    let loading = Arrived { loading: true, ..arrived() };
    assert_eq!(does(Input::Command(false), None, loading), "[HoldCommand, RefreshComposer]");
    assert_eq!(does(Input::Command(true), None, loading), "[RunCommand, RefreshComposer]");
    assert_eq!(does(Input::Repaint, None, arrived()), "[Flush]");
    assert!(!handle_input(Input::Disconnected, None, arrived()).goes_on);
    assert!(handle_input(Input::Ready, None, arrived()).goes_on);
}
