//! What happens to the words: inside a line, markers go and nothing else does.

use crate::markdown::model::{inline_of, plain, token, Token};
use crate::text::lemma_found_from;
use vstd::prelude::*;

verus! {

/// Whether `kept` is `s` with some of its characters left out, the others in their order.
pub open spec fn left_of(kept: Seq<char>, s: Seq<char>) -> bool
    decreases s.len(),
{
    if kept.len() == 0 {
        true
    } else if s.len() == 0 {
        false
    } else {
        (kept[0] == s[0] && left_of(kept.skip(1), s.skip(1))) || left_of(kept, s.skip(1))
    }
}

/// Leaving nothing out.
proof fn lemma_left_whole(s: Seq<char>)
    ensures
        left_of(s, s),
    decreases s.len(),
{
    if s.len() > 0 {
        lemma_left_whole(s.skip(1));
    }
}

/// Leaving out what comes first as well.
proof fn lemma_left_more(kept: Seq<char>, a: Seq<char>, s: Seq<char>)
    requires
        left_of(kept, s),
    ensures
        left_of(kept, a + s),
    decreases a.len(),
{
    if a.len() == 0 {
        assert(a + s =~= s);
    } else {
        lemma_left_more(kept, a.skip(1), s);
        assert((a + s).skip(1) =~= a.skip(1) + s);
    }
}

/// Leaving something out of each of two texts.
proof fn lemma_left_both(k: Seq<char>, a: Seq<char>, l: Seq<char>, b: Seq<char>)
    requires
        left_of(k, a),
        left_of(l, b),
    ensures
        left_of(k + l, a + b),
    decreases a.len(),
{
    if k.len() == 0 {
        assert(k + l =~= l);
        lemma_left_more(l, a, b);
    } else {
        assert((a + b).skip(1) =~= a.skip(1) + b);
        if k[0] == a[0] && left_of(k.skip(1), a.skip(1)) {
            lemma_left_both(k.skip(1), a.skip(1), l, b);
            assert((k + l).skip(1) =~= k.skip(1) + l);
        } else {
            lemma_left_both(k, a.skip(1), l, b);
        }
    }
}

/// A span of `s` that keeps something of what is between its markers, and what follows it.
proof fn lemma_left_span(s: Seq<char>, kept: Seq<char>, from: int, to: int, next: int, rest: Seq<char>)
    requires
        0 <= from <= to <= next <= s.len(),
        left_of(kept, s.subrange(from, to)),
        left_of(rest, s.skip(next)),
    ensures
        left_of(kept + rest, s),
{
    lemma_left_more(rest, s.subrange(to, next), s.skip(next));
    let after = s.subrange(to, next) + s.skip(next);
    lemma_left_both(kept, s.subrange(from, to), rest, after);
    lemma_left_more(kept + rest, s.take(from), s.subrange(from, to) + after);
    assert(s.take(from) + (s.subrange(from, to) + after) =~= s);
}

/// Markup inside a line loses its markers and changes no word: what is drawn of a line is the line
/// with some characters left out.
pub proof fn inline_markup_only_leaves_characters_out(s: Seq<char>)
    ensures
        left_of(inline_of(s).text, s),
    decreases s.len(), 1nat,
{
    if s.len() > 0 {
        match token(s) {
            Token::Code(e) => if 1 <= e < s.len() {
                inline_markup_only_leaves_characters_out(s.skip(e + 1));
                lemma_left_whole(s.subrange(1, e));
                lemma_left_span(s, s.subrange(1, e), 1, e, e + 1, inline_of(s.skip(e + 1)).text);
            },
            Token::Strike(e) => if 2 <= e && e + 2 <= s.len() {
                lemma_left_inner(s, 2, e, e + 2);
            },
            Token::Bold(e) => if 2 <= e && e + 2 <= s.len() {
                lemma_left_inner(s, 2, e, e + 2);
            },
            Token::Italic(e) => if 1 <= e < s.len() {
                lemma_left_inner(s, 1, e, e + 1);
            },
            Token::Link(close, e) => if 1 <= close < s.len() && 1 <= e < s.len() {
                inline_markup_only_leaves_characters_out(s.skip(e + 1));
                lemma_left_whole(s.subrange(1, close));
                lemma_found_from(s, close + 2, seq![')']);
                lemma_left_span(
                    s,
                    s.subrange(1, close),
                    1,
                    close,
                    e + 1,
                    inline_of(s.skip(e + 1)).text,
                );
            },
            Token::Plain => {
                inline_markup_only_leaves_characters_out(s.skip(1));
                lemma_left_whole(s.subrange(0, 1));
                assert(s.subrange(0, 1) =~= plain(seq![s[0]]).text);
                lemma_left_span(s, s.subrange(0, 1), 0, 1, 1, inline_of(s.skip(1)).text);
            },
        }
    }
}

/// A span whose inside is marked up in turn.
proof fn lemma_left_inner(s: Seq<char>, from: int, to: int, next: int)
    requires
        0 < from <= to < next <= s.len(),
    ensures
        left_of(inline_of(s.subrange(from, to)).text + inline_of(s.skip(next)).text, s),
    decreases s.len(), 0nat,
{
    inline_markup_only_leaves_characters_out(s.subrange(from, to));
    inline_markup_only_leaves_characters_out(s.skip(next));
    lemma_left_span(
        s,
        inline_of(s.subrange(from, to)).text,
        from,
        to,
        next,
        inline_of(s.skip(next)).text,
    );
}

} // verus!
