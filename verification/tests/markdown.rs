//! Answers as they are drawn.

use neosh::markdown::model::MAX_TABLE;
use neosh::markdown::table::{table, table_len};
use neosh::markdown::{render, Md, Patch};

fn display_width(s: &str) -> usize {
    unicode_width::UnicodeWidthStr::width(s)
}

/// What a frontend holds after applying patches in order.
#[derive(Default)]
struct Rendered {
    lines: Vec<String>,
    marks: Vec<(usize, usize, usize, &'static str)>,
}

impl Rendered {
    fn apply(&mut self, p: Patch) {
        self.lines.truncate(p.from);
        self.marks.retain(|m| m.0 < p.from);
        self.marks.extend(p.marks.into_iter().map(|(r, a, b, g)| (r + p.from, a, b, g)));
        self.lines.extend(p.lines);
    }
}

fn all(text: &str) -> Rendered {
    let mut md = Md::new();
    let mut out = Rendered::default();
    out.apply(md.push(text));
    out.apply(md.finish());
    out
}

fn lines(text: &str) -> Vec<String> {
    all(text).lines
}

fn groups(text: &str) -> Vec<&'static str> {
    all(text).marks.into_iter().map(|m| m.3).collect()
}

#[test]
fn a_heading_loses_its_hashes_and_keeps_its_words() {
    assert_eq!(lines("## Getting started\n"), vec!["Getting started"]);
    assert!(groups("## Getting started\n").contains(&"Markdown.Heading"));
    // Seven hashes is not a heading in any dialect, and a line starting with them is text.
    assert_eq!(lines("####### nope\n"), vec!["####### nope"]);
}

#[test]
fn a_bullet_becomes_a_bullet() {
    assert_eq!(lines("- one\n- two\n"), vec!["  \u{2022} one", "  \u{2022} two"]);
}

#[test]
fn a_numbered_list_keeps_its_numbers() {
    // The number is information; the bullet character is not. Renumbering silently would make
    // an answer that says "see step 3" wrong.
    assert_eq!(lines("1. first\n7. seventh\n"), vec!["  1. first", "  7. seventh"]);
}

#[test]
fn a_fence_shows_its_language_and_drops_its_backticks() {
    let got = lines("```rust\nfn main() {}\n```\n");
    assert_eq!(got, vec!["  rust", "  fn main() {}"]);
    assert!(groups("```rust\nlet x = 1;\n```\n").contains(&"Markdown.Code"));
}

#[test]
fn nothing_inside_a_fence_is_markup() {
    // The classic failure: a shell snippet full of `*` and `#` rendered as headings and italics.
    let got = lines("```\n# not a heading\nls *.rs\n```\n");
    assert_eq!(got, vec!["  # not a heading", "  ls *.rs"]);
}

#[test]
fn inline_markers_are_removed_rather_than_shown() {
    assert_eq!(lines("a **bold** word\n"), vec!["a bold word"]);
    assert_eq!(lines("a `code` word\n"), vec!["a code word"]);
    assert_eq!(lines("a *slanted* word\n"), vec!["a slanted word"]);
    assert_eq!(lines("see [the docs](https://example.invalid)\n"), vec!["see the docs"]);
}

#[test]
fn a_mark_covers_the_text_it_styles_and_not_the_markers() {
    let p = all("say **this** now\n");
    assert_eq!(p.lines, vec!["say this now"]);
    let bold = p.marks.iter().find(|m| m.3 == "Markdown.Bold").expect("bold was marked");
    assert_eq!(&p.lines[bold.0][bold.1..bold.2], "this");
}

#[test]
fn struck_through_text_keeps_its_words_and_loses_its_tildes() {
    assert_eq!(lines("~~wrong~~ right\n"), vec!["wrong right"]);
    assert!(groups("~~wrong~~ right\n").contains(&"Markdown.Strike"));
}

#[test]
fn a_marker_inside_backticks_stays_literal() {
    assert_eq!(lines("use `a * b` here\n"), vec!["use a * b here"]);
}

#[test]
fn an_unclosed_marker_is_left_alone() {
    // Half a bold run is what every stream looks like for a moment. Rendering it as bold and
    // then un-bolding it when the next character arrives is a flicker on every token.
    assert_eq!(lines("this is **not closed\n"), vec!["this is **not closed"]);
}

#[test]
fn multiplication_is_not_emphasis() {
    assert_eq!(lines("2 * 3 * 4\n"), vec!["2 * 3 * 4"]);
}

#[test]
fn a_multibyte_answer_does_not_split_a_character() {
    let got = lines("日本語 **太字** \u{1f389}\n");
    assert_eq!(got, vec!["日本語 太字 \u{1f389}"]);
}

// ---- tables -----------------------------------------------------------

#[test]
fn a_table_is_laid_out_in_columns() {
    let got = lines(
        "| Pattern | Outcome |\n|---|---|\n| Table tail | Preserved |\n| Short | Yes |\n",
    );
    assert_eq!(got[0], "  Pattern     Outcome");
    assert_eq!(got[2], "  Table tail  Preserved");
    assert_eq!(got[3], "  Short       Yes", "and every row lines up with the header");
    assert!(
        got[1].trim_start().chars().all(|c| c == '\u{2500}'),
        "a rule under the labels, not a box around everything: {:?}",
        got[1]
    );
    assert_eq!(
        display_width(&got[1]),
        display_width(&got[2]),
        "as wide as the widest row"
    );
}

#[test]
fn alignment_is_honoured() {
    let got = lines("| n | word |\n|--:|:-----|\n| 7 | seven |\n| 100 | hundred |\n");
    assert!(got[2].starts_with("    7  seven"), "right-aligned: {:?}", got[2]);
    assert!(got[3].starts_with("  100  hundred"), "and lines up: {:?}", got[3]);
}

#[test]
fn half_a_table_is_not_a_table_yet() {
    // The delimiter row is what makes it one. Rendering a one-column table that becomes a
    // three-column one a moment later is a flicker on the most visually busy thing in an answer.
    assert_eq!(lines("| Pattern | Outcome |\n"), vec!["| Pattern | Outcome |"]);
}

#[test]
fn a_table_too_wide_to_line_up_becomes_records() {
    // Columns running off the right edge mean guessing which value belongs to which label,
    // which is worse than not having a table.
    let wide = "x".repeat(40);
    let got = lines(&format!(
        "| a | b | c |\n|---|---|---|\n| {wide} | {wide} | {wide} |\n"
    ));
    assert_eq!(got[0], format!("  a  {wide}"));
    assert_eq!(got[1], format!("  b  {wide}"));
    assert_eq!(got[2], format!("  c  {wide}"));
}

#[test]
fn a_cell_that_will_not_fit_is_clipped_not_wrapped() {
    let long = "y".repeat(80);
    let got = lines(&format!("| a | b |\n|---|---|\n| {long} | ok |\n"));
    assert!(got[2].contains('\u{2026}'), "clipped: {:?}", got[2]);
    assert!(display_width(&got[2]) <= MAX_TABLE, "and inside the budget: {:?}", got[2]);
}

#[test]
fn pipes_inside_a_fence_are_not_a_table() {
    let got = lines("```\n| a | b |\n|---|---|\n```\n");
    assert_eq!(got, vec!["  | a | b |", "  |---|---|"]);
}

// ---- the incremental half ---------------------------------------------

#[test]
fn streaming_a_character_at_a_time_ends_up_where_one_shot_does() {
    // The property that matters: whatever the incremental path does, it has to agree with a
    // full re-render, because the full re-render is what a reopened conversation shows.
    let source = "# Title\n\nSome **bold** text.\n\n- one\n- two\n\n```rust\nfn f() {}\n```\n\nEnd.\n";
    let mut md = Md::new();
    let mut got = Rendered::default();
    for c in source.chars() {
        got.apply(md.push(&c.to_string()));
    }
    got.apply(md.finish());
    let want = all(source);
    assert_eq!(got.lines, want.lines);
    assert_eq!(got.marks, want.marks, "and the colours land in the same places");
}

#[test]
fn a_stored_message_renders_the_same_as_a_streamed_one() {
    // Switching conversations must not change what an answer looks like.
    let source = "## Heading\n\nA **word**.\n\n```sh\nls\n```\n";
    let (lines, marks) = render(source);
    let want = all(source);
    assert_eq!(lines, want.lines);
    assert_eq!(marks, want.marks);
}

#[test]
fn a_finished_block_is_never_rendered_again() {
    // The whole reason this type exists. Without it, an answer costs O(n²) to display and the
    // stutter shows up exactly where answers are longest.
    let mut md = Md::new();
    md.push("first paragraph\n\n");
    let p = md.push("second");
    assert_eq!(p.from, 2, "the first paragraph and its blank line are behind us");
    assert_eq!(p.lines, vec!["second"], "and only the new block is redrawn");
}

#[test]
fn an_open_fence_holds_the_boundary_until_it_closes() {
    // A blank line inside a fence is not a block boundary. Settling there would let the rest of
    // the code block be re-parsed as prose.
    let mut md = Md::new();
    md.push("```\nfirst\n\nsecond\n");
    let p = md.push("third\n");
    assert_eq!(p.from, 0, "nothing has been settled yet");
    assert!(p.lines.iter().any(|l| l.contains("third")));
    assert!(p.lines.iter().all(|l| l.starts_with("  ")), "all of it is still code: {:?}", p.lines);
}

#[test]
fn a_partial_line_is_drawn_before_its_newline_arrives() {
    // Otherwise the answer appears one line behind what has actually been said, which reads as
    // lag on every single line.
    let mut md = Md::new();
    let p = md.push("half a sen");
    assert_eq!(p.lines, vec!["half a sen"]);
}

#[test]
fn finishing_settles_a_block_with_no_blank_line_after_it() {
    let mut md = Md::new();
    md.push("the end");
    let p = md.finish();
    assert_eq!(p.lines, vec!["the end"]);
    assert_eq!(md.finish(), Patch { from: 1, lines: vec![], marks: vec![] }, "and it stays settled");
}

#[test]
fn a_table_that_takes_a_fence_line_is_streamed_as_it_is_rendered() {
    let source = "|a|b|\n|-|-|\n```|x\n```|y\nz|w\n\n";
    let mut md = Md::new();
    let mut got = Rendered::default();
    let mut said = String::new();
    for c in source.chars() {
        said.push(c);
        got.apply(md.push(&c.to_string()));
        assert_eq!(got.lines, render(&said).0, "after every character");
    }
    got.apply(md.finish());
    assert_eq!(got.lines, render(source).0);

    let mut md = Md::new();
    let mut got = Rendered::default();
    got.apply(md.push("a|b\n-|-\n```|x\n```|y\n"));
    got.apply(md.push("c|d\n\n"));
    got.apply(md.finish());
    let whole = render("a|b\n-|-\n```|x\n```|y\nc|d\n\n");
    assert_eq!(got.lines, whole.0);
    assert_eq!(got.marks, whole.1);
}

#[test]
fn a_heading_is_settled_with_its_newline() {
    let mut md = Md::new();
    md.push("# Title\n");
    assert_eq!(md.push("x"), Patch { from: 1, lines: vec!["x".into()], marks: vec![] });
    // Unless it could still be the header of a table.
    let mut md = Md::new();
    md.push("# a | b\n");
    let p = md.push("-|-\n");
    assert_eq!(p.from, 0);
    assert_eq!(p.lines, render("# a | b\n-|-\n").0);
}

#[test]
fn indented_code_is_drawn_as_it_stands() {
    assert_eq!(
        render("    a *b* c\n"),
        (vec!["  a *b* c".to_string()], vec![(0, 0, 9, "Markdown.Code")])
    );
    assert_eq!(render("\t# not a heading\n").0, vec!["  # not a heading"]);
    assert_eq!(render("     deep\n").0, vec!["   deep"]);
    // A list is nested by indenting it, and a blank line is blank.
    assert!(!render("    - a *b*\n").1.iter().any(|m| m.3 == "Markdown.Code"));
    assert!(render("     \n").1.is_empty());
    assert!(render("   three\n").1.is_empty(), "three spaces are prose");
}

#[test]
fn finished_blocks_are_drawn_above_whatever_follows_them() {
    let above = "# T\n\n|a|b|\n|-|-|\n|1|2|\n\n```\nx\n```\n";
    let below = "two **words**\n";
    let (mut rows, mut marks) = render(above);
    let (more, styled) = render(below);
    let n = rows.len();
    rows.extend(more);
    marks.extend(styled.into_iter().map(|(r, a, b, g)| (r + n, a, b, g)));
    assert_eq!(render(&format!("{above}{below}")), (rows, marks));
}

#[test]
fn markup_inside_a_line_only_leaves_characters_out() {
    let line = "a **b** `c` [d](e) ~~f~~ *g* \u{1f389}";
    let (rows, _) = render(&format!("{line}\n"));
    let mut left = line.chars();
    assert!(rows[0].chars().all(|c| left.any(|l| l == c)), "{rows:?}");
    assert_eq!(rows[0], "a b c d f g \u{1f389}");
}

#[test]
fn no_table_starts_past_the_last_line() {
    let row: Vec<char> = "a|b".chars().collect();
    let raw: Vec<&[char]> = vec![&row];
    let (mut lines, mut marks) = (Vec::new(), Vec::new());
    assert_eq!(table(&raw, 1, &mut lines, &mut marks), None);
    assert_eq!(table(&raw, 9, &mut lines, &mut marks), None);
    assert_eq!(table_len(&raw, 9), None);
    assert!(lines.is_empty() && marks.is_empty());
}

#[test]
fn every_mark_lies_on_its_row() {
    let (rows, marks) = render("# **A** b\n\n| `x` | *y* |\n|---|---|\n| [z](q) | \u{1f389} |\n");
    let mut last = 0;
    for (row, from, to, _) in marks {
        assert!(last <= row, "marks come row by row");
        last = row;
        assert!(from <= to && to <= rows[row].len());
        assert!(rows[row].is_char_boundary(from) && rows[row].is_char_boundary(to));
    }
}

#[test]
fn what_is_settled_stays_where_it_is() {
    let mut md = Md::new();
    let mut got = Rendered::default();
    got.apply(md.push("one\n\ntwo\n\n"));
    let before = got.lines.clone();
    let p = md.push("three\n\nfour");
    assert!(p.from >= 3);
    got.apply(p);
    assert_eq!(got.lines[..4], before[..4]);
}
