//! The word at the top of an empty transcript.

use neosh::logo::{row, EDGE, ROWS, WIDTH};
use unicode_width::UnicodeWidthStr;

#[test]
fn every_row_is_the_width_it_claims() {
    for r in ROWS {
        assert_eq!(r.width(), WIDTH, "{r}");
    }
}

#[test]
fn faces_and_edges_are_coloured_separately_and_spaces_not_at_all() {
    let (text, spans) = row(0, 2);
    assert!(text.starts_with("  \u{2588}"));
    // The first run is face, the glyph after it is edge, and the gap between N's legs has no span.
    assert_eq!(spans[0].2, "Logo.Face0");
    assert_eq!(spans[1].2, EDGE);
    assert_eq!(spans[0].1, spans[1].0, "the edge starts where the face stops");
    let covered: usize = spans.iter().map(|(a, b, _)| b - a).sum();
    let spaces = text.chars().filter(|c| *c == ' ').count();
    assert_eq!(covered + spaces, text.len(), "everything but the spaces is coloured");
}

#[test]
fn a_row_that_does_not_exist_is_empty_rather_than_a_panic() {
    let (text, spans) = row(99, 0);
    assert!(text.is_empty());
    assert!(spans.is_empty());
}
