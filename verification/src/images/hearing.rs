//! What is made of what a clipboard holds and of what the programs that read it say.

use crate::images::clipboard::{
    first_refusal, first_said, is_just_empty, is_refusal, is_type, listed, picture_among,
    trouble_said, type_among, Platform, Trouble, DECODABLE,
};
use crate::host::lining::{is_in, lemma_is_in};
use crate::markdown::promises::{is_at, lemma_found_at};
use crate::images::hunting::{first_found, Found};
use crate::images::keeping::{extension_for, goes_untouched, is_moderate, place_for};
use crate::images::naming::{
    attribute_from, data_in, first_white, is_absolute, is_attribute, is_web, link_names_picture,
    looks_like_a_picture, says_base64, solid, srcs_from, unentitied, unpacked, uris_in, value_of,
    LinkParts,
};
use crate::images::telling::{is_small, lemma_spells, lemma_trimmed, spells};
use crate::images::sniffed;
use crate::letters::{holding_is_standing_within, lower_case_changes_capitals_alone};
use crate::paths::spelling::lemma_split_concat;
use crate::text::{texts, trim_start_of};
use crate::text::{begins, is_white, lemma_position, split_on, trim_of};
use crate::words::joined_with;
use crate::words::{holds, lower, replaced};
use vstd::prelude::*;

verus! {

// ---- what is on offer -------------------------------------------------------

/// A type is the same whatever its case, and whatever parameters follow it.
pub proof fn a_type_is_a_type_whatever_follows_it(
    offered: Seq<char>,
    rest: Seq<char>,
    mime: Seq<char>,
)
    requires
        offered.len() > 0,
        !is_white(offered[0]) && !is_white(offered.last()),
        forall|i: int| 0 <= i < offered.len() ==> #[trigger] offered[i] != ';',
    ensures
        is_type(offered, mime) == (lower(offered) == lower(mime)),
        is_type(offered + seq![';'] + rest, mime) == is_type(offered, mime),
        is_type(offered, offered),
{
    let n = offered.len() as int;
    lemma_position(offered, ';', n);
    assert(offered.take(n) =~= offered);
    lemma_trimmed(offered);
    let s = offered + seq![';'] + rest;
    assert forall|j: int| 0 <= j < n implies #[trigger] s[j] != ';' by {
        assert(s[j] == offered[j]);
    }
    lemma_position(s, ';', n);
    assert(s.take(n) =~= offered);
}

/// The type that is found is the first on offer that is it, and none is found only where none is.
pub proof fn the_first_of_a_type_is_found(types: Seq<Seq<char>>, mime: Seq<char>)
    ensures
        match type_among(types, mime) {
            Some(i) => {
                &&& 0 <= i < types.len()
                &&& is_type(types[i], mime)
                &&& forall|j: int| 0 <= j < i ==> !is_type(#[trigger] types[j], mime)
            },
            None => forall|j: int| 0 <= j < types.len() ==> !is_type(#[trigger] types[j], mime),
        },
    decreases types.len(),
{
    if types.len() > 0 {
        let front = types.drop_last();
        the_first_of_a_type_is_found(front, mime);
        let upto = match type_among(front, mime) {
            Some(i) => i,
            None => front.len() as int,
        };
        assert forall|j: int| 0 <= j < upto implies !is_type(#[trigger] types[j], mime) by {
            assert(front[j] == types[j]);
        }
        if let Some(i) = type_among(front, mime) {
            assert(front[i] == types[i]);
        }
    }
}

/// Whether a kind of picture is on offer.
pub open spec fn is_on_offer(types: Seq<Seq<char>>, mime: Seq<char>) -> bool {
    exists|i: int| 0 <= i < types.len() && is_type(#[trigger] types[i], mime)
}

proof fn lemma_best(types: Seq<Seq<char>>, k: int)
    requires
        0 <= k <= 8,
    ensures
        match picture_among(types, k) {
            Some(i) => exists|j: int|
                {
                    &&& k <= j < 8
                    &&& 0 <= i < types.len()
                    &&& is_type(types[i], #[trigger] DECODABLE@[j]@)
                    &&& forall|h: int| k <= h < j ==> !is_on_offer(types, #[trigger] DECODABLE@[h]@)
                },
            None => forall|h: int| k <= h < 8 ==> !is_on_offer(types, #[trigger] DECODABLE@[h]@),
        },
    decreases 8 - k,
{
    if k < 8 {
        the_first_of_a_type_is_found(types, DECODABLE@[k]@);
        match type_among(types, DECODABLE@[k]@) {
            Some(i) => {
                assert(is_type(types[i], DECODABLE@[k]@));
            },
            None => {
                assert(!is_on_offer(types, DECODABLE@[k]@));
                lemma_best(types, k + 1);
                if let Some(i) = picture_among(types, k + 1) {
                    let j = choose|j: int|
                        {
                            &&& k + 1 <= j < 8
                            &&& 0 <= i < types.len()
                            &&& is_type(types[i], #[trigger] DECODABLE@[j]@)
                            &&& forall|h: int|
                                k + 1 <= h < j ==> !is_on_offer(types, #[trigger] DECODABLE@[h]@)
                        };
                    assert(is_type(types[i], DECODABLE@[j]@));
                    assert forall|h: int| k <= h < j implies !is_on_offer(
                        types,
                        #[trigger] DECODABLE@[h]@,
                    ) by {
                        if h > k {
                            assert(!is_on_offer(types, DECODABLE@[h]@));
                        }
                    }
                }
            },
        }
    }
}

/// The picture that is asked for is of the best kind on offer: no better one is, and none is asked
/// for only where no kind is. A PNG is the best there is, then a JPEG, a WebP, a GIF and a bitmap.
pub proof fn the_best_picture_on_offer_is_asked_for(types: Seq<Seq<char>>)
    ensures
        match picture_among(types, 0) {
            Some(i) => exists|j: int|
                {
                    &&& 0 <= j < 8
                    &&& 0 <= i < types.len()
                    &&& is_type(types[i], #[trigger] DECODABLE@[j]@)
                    &&& forall|h: int| 0 <= h < j ==> !is_on_offer(types, #[trigger] DECODABLE@[h]@)
                },
            None => forall|h: int| 0 <= h < 8 ==> !is_on_offer(types, #[trigger] DECODABLE@[h]@),
        },
        DECODABLE@[0]@ == "image/png"@,
        DECODABLE@[1]@ == "image/jpeg"@,
        DECODABLE@[2]@ == "image/jpg"@,
        DECODABLE@[3]@ == "image/webp"@,
        DECODABLE@[4]@ == "image/gif"@,
        DECODABLE@[5]@ == "image/bmp"@,
        DECODABLE@[6]@ == "image/x-bmp"@,
        DECODABLE@[7]@ == "image/x-ms-bmp"@,
{
    lemma_best(types, 0);
}

// ---- what was said ----------------------------------------------------------

proof fn lemma_lower_around(a: Seq<char>, word: Seq<char>, b: Seq<char>)
    requires
        is_small(word),
    ensures
        holds(lower(a + word + b), word),
{
    lower_case_changes_capitals_alone(a + word + b);
    lower_case_changes_capitals_alone(word);
    lower_case_changes_capitals_alone(a);
    lower_case_changes_capitals_alone(b);
    assert(lower(a + word + b) =~= lower(a) + word + lower(b));
    holding_is_standing_within(lower(a), word, lower(b));
}

/// A line that says that something was not authorized, permitted or allowed, or that permission was
/// denied, is a refusal, whatever else it says; one that says that nothing was there is none.
pub proof fn a_refusal_is_known_by_its_words(a: Seq<char>, b: Seq<char>)
    ensures
        is_refusal(a + "not authorized"@ + b),
        is_refusal(a + "not permitted"@ + b),
        is_refusal(a + "not allowed"@ + b),
        is_refusal(a + "permission denied"@ + b),
        is_refusal(a + "-1743"@ + b),
        is_just_empty(a + "nothing is copied"@ + b),
        is_just_empty(a + "not available"@ + b),
{
    reveal_strlit("not authorized");
    reveal_strlit("not permitted");
    reveal_strlit("not allowed");
    reveal_strlit("permission denied");
    reveal_strlit("-1743");
    reveal_strlit("nothing is copied");
    reveal_strlit("not available");
    lemma_lower_around(a, "not authorized"@, b);
    lemma_lower_around(a, "not permitted"@, b);
    lemma_lower_around(a, "not allowed"@, b);
    lemma_lower_around(a, "permission denied"@, b);
    lemma_lower_around(a, "-1743"@, b);
    lemma_lower_around(a, "nothing is copied"@, b);
    lemma_lower_around(a, "not available"@, b);
}

/// What is repeated of a complaint is its first line with something on it, and of a refusal the first
/// line that is one.
pub proof fn the_first_line_that_says_it_is_repeated(ls: Seq<Seq<char>>)
    ensures
        match first_said(ls) {
            Some(l) => exists|i: int|
                {
                    &&& 0 <= i < ls.len()
                    &&& l == trim_of(#[trigger] ls[i]) && l.len() > 0
                    &&& forall|j: int| 0 <= j < i ==> trim_of(#[trigger] ls[j]).len() == 0
                },
            None => forall|j: int| 0 <= j < ls.len() ==> trim_of(#[trigger] ls[j]).len() == 0,
        },
        match first_refusal(ls) {
            Some(l) => exists|i: int|
                {
                    &&& 0 <= i < ls.len()
                    &&& l == trim_of(#[trigger] ls[i]) && is_refusal(l)
                    &&& forall|j: int|
                        0 <= j < i ==> trim_of(#[trigger] ls[j]).len() == 0 || !is_refusal(
                            trim_of(ls[j]),
                        )
                },
            None => forall|j: int|
                0 <= j < ls.len() ==> trim_of(#[trigger] ls[j]).len() == 0 || !is_refusal(
                    trim_of(ls[j]),
                ),
        },
    decreases ls.len(),
{
    if ls.len() > 0 {
        let rest = ls.skip(1);
        the_first_line_that_says_it_is_repeated(rest);
        if trim_of(ls[0]).len() == 0 {
            match first_said(rest) {
                Some(l) => {
                    let i = choose|i: int|
                        {
                            &&& 0 <= i < rest.len()
                            &&& l == trim_of(#[trigger] rest[i]) && l.len() > 0
                            &&& forall|j: int| 0 <= j < i ==> trim_of(#[trigger] rest[j]).len() == 0
                        };
                    assert(ls[i + 1] == rest[i]);
                    assert forall|j: int| 0 <= j < i + 1 implies trim_of(#[trigger] ls[j]).len()
                        == 0 by {
                        if j > 0 {
                            assert(rest[j - 1] == ls[j]);
                        }
                    }
                },
                None => {
                    assert forall|j: int| 0 <= j < ls.len() implies trim_of(#[trigger] ls[j]).len()
                        == 0 by {
                        if j > 0 {
                            assert(rest[j - 1] == ls[j]);
                        }
                    }
                },
            }
        } else {
            assert(trim_of(ls[0]).len() > 0);
        }
        if trim_of(ls[0]).len() > 0 && is_refusal(trim_of(ls[0])) {
            assert(is_refusal(trim_of(ls[0])));
        } else {
            match first_refusal(rest) {
                Some(l) => {
                    let i = choose|i: int|
                        {
                            &&& 0 <= i < rest.len()
                            &&& l == trim_of(#[trigger] rest[i]) && is_refusal(l)
                            &&& forall|j: int|
                                0 <= j < i ==> trim_of(#[trigger] rest[j]).len() == 0
                                    || !is_refusal(trim_of(rest[j]))
                        };
                    assert(ls[i + 1] == rest[i]);
                    assert forall|j: int| 0 <= j < i + 1 implies trim_of(#[trigger] ls[j]).len()
                        == 0 || !is_refusal(trim_of(ls[j])) by {
                        if j > 0 {
                            assert(rest[j - 1] == ls[j]);
                        }
                    }
                },
                None => {
                    assert forall|j: int| 0 <= j < ls.len() implies trim_of(#[trigger] ls[j]).len()
                        == 0 || !is_refusal(trim_of(ls[j])) by {
                        if j > 0 {
                            assert(rest[j - 1] == ls[j]);
                        }
                    }
                },
            }
        }
    }
}

/// Every line of a list with something on it is listed, without the white space around it, and so is
/// every one of a list of addresses that is not a comment.
pub proof fn every_line_that_says_something_is_listed(ls: Seq<Seq<char>>, last: Seq<char>)
    ensures
        trim_of(last).len() > 0 ==> listed(ls.push(last)) == listed(ls).push(trim_of(last)),
        trim_of(last).len() == 0 ==> listed(ls.push(last)) == listed(ls),
        trim_of(last).len() > 0 && trim_of(last)[0] != '#' ==> uris_in(ls.push(last)) == uris_in(
            ls,
        ).push(trim_of(last)),
        trim_of(last).len() == 0 || trim_of(last)[0] == '#' ==> uris_in(ls.push(last)) == uris_in(
            ls,
        ),
        listed(Seq::<Seq<char>>::empty()).len() == 0,
        uris_in(Seq::<Seq<char>>::empty()).len() == 0,
{
    assert(ls.push(last).drop_last() =~= ls);
}

/// What is taken is the first of what was found that is a picture, and none only where none is.
pub proof fn the_first_picture_found_is_taken(v: Seq<Found>)
    ensures
        match first_found(v) {
            Some(p) => exists|i: int|
                {
                    &&& 0 <= i < v.len()
                    &&& #[trigger] v[i] == Some(p)
                    &&& forall|j: int| 0 <= j < i ==> #[trigger] v[j] is None
                },
            None => forall|j: int| 0 <= j < v.len() ==> #[trigger] v[j] is None,
        },
    decreases v.len(),
{
    if v.len() > 0 {
        if v[0] is None {
            let rest = v.skip(1);
            the_first_picture_found_is_taken(rest);
            match first_found(rest) {
                Some(p) => {
                    let i = choose|i: int|
                        {
                            &&& 0 <= i < rest.len()
                            &&& #[trigger] rest[i] == Some(p)
                            &&& forall|j: int| 0 <= j < i ==> #[trigger] rest[j] is None
                        };
                    assert(v[i + 1] == Some(p));
                    assert forall|j: int| 0 <= j < i + 1 implies #[trigger] v[j] is None by {
                        if j > 0 {
                            assert(rest[j - 1] == v[j]);
                        }
                    }
                },
                None => {
                    assert forall|j: int| 0 <= j < v.len() implies #[trigger] v[j] is None by {
                        if j > 0 {
                            assert(rest[j - 1] == v[j]);
                        }
                    }
                },
            }
        } else {
            assert(v[0] == Some(v[0]->0));
        }
    }
}

/// The sentence at the end says which of three things went wrong: nothing to look with, something that
/// looked and could not see, or nothing there. How to allow it is told only where it was refused and
/// can be allowed.
pub proof fn the_sentence_at_the_end_says_what_went_wrong(
    t: Trouble,
    platform: Platform,
    terminal: Seq<char>,
)
    ensures
        !t.asked ==> ("no clipboard tool to read an image with \u{2014} install one of "@).is_prefix_of(
            trouble_said(t, platform, terminal),
        ),
        t.asked && t.said@.len() == 0 ==> trouble_said(t, platform, terminal)
            == "nothing on the clipboard that is an image"@,
        t.asked && t.said@.len() > 0 ==> ("could not read the clipboard: "@ + joined_with(
            texts(t.said@),
            "; "@,
        )).is_prefix_of(trouble_said(t, platform, terminal)),
        t.asked && t.said@.len() > 0 && t.denied && platform == Platform::Mac ==> is_in(
            trouble_said(t, platform, terminal),
            " \u{2014} macOS refused "@ + terminal,
        ),
        t.asked && t.said@.len() > 0 && !(t.denied && platform == Platform::Mac) ==> trouble_said(
            t,
            platform,
            terminal,
        ) == "could not read the clipboard: "@ + joined_with(texts(t.said@), "; "@),
{
    let s = trouble_said(t, platform, terminal);
    let none = "no clipboard tool to read an image with \u{2014} install one of "@;
    let head = "could not read the clipboard: "@ + joined_with(texts(t.said@), "; "@);
    if !t.asked {
        assert(s.subrange(0, none.len() as int) =~= none);
    } else if t.said@.len() > 0 {
        assert(s.subrange(0, head.len() as int) =~= head);
        if t.denied && platform == Platform::Mac {
            let mid = " \u{2014} macOS refused "@ + terminal;
            let tail =
                "; allow it when the prompt appears, or under System Settings \u{203a} Privacy & Security"@;
            assert(s =~= head + mid + tail);
            lemma_is_in(head, mid, tail);
        }
    }
}

// ---- what a page says -------------------------------------------------------

/// The value of an attribute is what stands between its quotes, of either kind, or else everything up
/// to the first white space; a quote that is never closed is no value.
pub proof fn a_value_is_what_stands_between_its_quotes(v: Seq<char>, q: char, rest: Seq<char>)
    requires
        q == '"' || q == '\'',
        forall|i: int| 0 <= i < v.len() ==> #[trigger] v[i] != q,
    ensures
        value_of(seq![q] + v + seq![q] + rest) == Some(v),
        value_of(seq![q] + v) is None,
{
    let s = seq![q] + v + seq![q] + rest;
    let t = s.skip(1);
    assert(t =~= v + seq![q] + rest);
    assert forall|j: int| 0 <= j < v.len() implies #[trigger] t[j] != q by {
        assert(t[j] == v[j]);
    }
    lemma_position(t, q, v.len() as int);
    assert(t.take(v.len() as int) =~= v);
    let u = seq![q] + v;
    assert(u.skip(1) =~= v);
    lemma_position(v, q, v.len() as int);
}

proof fn lemma_first_white(v: Seq<char>, rest: Seq<char>)
    requires
        forall|i: int| 0 <= i < v.len() ==> !is_white(#[trigger] v[i]),
        rest.len() == 0 || is_white(rest[0]),
    ensures
        first_white(v + rest) == v.len(),
    decreases v.len(),
{
    if v.len() == 0 {
        assert(v + rest =~= rest);
    } else {
        let t = v.skip(1);
        assert((v + rest).skip(1) =~= t + rest);
        assert forall|i: int| 0 <= i < t.len() implies !is_white(#[trigger] t[i]) by {
            assert(t[i] == v[i + 1]);
        }
        lemma_first_white(t, rest);
        assert((v + rest)[0] == v[0]);
    }
}

/// As above, without quotes.
pub proof fn a_value_without_quotes_ends_at_white_space(v: Seq<char>, rest: Seq<char>)
    requires
        v.len() > 0,
        v[0] != '"' && v[0] != '\'',
        forall|i: int| 0 <= i < v.len() ==> !is_white(#[trigger] v[i]),
        rest.len() == 0 || is_white(rest[0]),
    ensures
        value_of(v + rest) == Some(v),
{
    lemma_first_white(v, rest);
    assert((v + rest).take(v.len() as int) =~= v);
}

/// A source is one to fetch where it says where it is: over the web, or in itself.
pub proof fn a_source_says_where_it_is(rest: Seq<char>, s: Seq<char>)
    ensures
        is_absolute("http://"@ + rest),
        is_absolute("https://"@ + rest),
        is_absolute("data:"@ + rest),
        is_absolute(s) ==> s.len() > 0 && (s[0] == 'h' || s[0] == 'd'),
{
    holding_is_standing_within(seq![], "http://"@, rest);
    holding_is_standing_within(seq![], "https://"@, rest);
    holding_is_standing_within(seq![], "data:"@, rest);
    reveal_strlit("http://");
    reveal_strlit("https://");
    reveal_strlit("data:");
    if begins(s, "http://"@) {
        assert(s.take(7)[0] == "http://"@[0]);
    }
    if begins(s, "https://"@) {
        assert(s.take(8)[0] == "https://"@[0]);
    }
    if begins(s, "data:"@) {
        assert(s.take(5)[0] == "data:"@[0]);
    }
}

/// A text with no ampersand in it is what it says.
pub proof fn only_entities_are_written_out(s: Seq<char>)
    requires
        forall|i: int| 0 <= i < s.len() ==> #[trigger] s[i] != '&',
    ensures
        unentitied(s) == s,
{
    reveal_strlit("&amp;");
    reveal_strlit("&quot;");
    reveal_strlit("&#39;");
    reveal_strlit("&lt;");
    reveal_strlit("&gt;");
    lemma_none_to_replace(s, "&amp;"@, "&"@);
    lemma_none_to_replace(s, "&quot;"@, "\""@);
    lemma_none_to_replace(s, "&#39;"@, "'"@);
    lemma_none_to_replace(s, "&lt;"@, "<"@);
    lemma_none_to_replace(s, "&gt;"@, ">"@);
}

proof fn lemma_none_to_replace(s: Seq<char>, pat: Seq<char>, by: Seq<char>)
    requires
        pat.len() > 0,
        pat[0] == '&',
        forall|i: int| 0 <= i < s.len() ==> #[trigger] s[i] != '&',
    ensures
        replaced(s, pat, by) == s,
    decreases s.len(),
{
    if s.len() > 0 {
        let t = s.skip(1);
        assert forall|i: int| 0 <= i < t.len() implies #[trigger] t[i] != '&' by {
            assert(t[i] == s[i + 1]);
        }
        lemma_none_to_replace(t, pat, by);
        if begins(s, pat) {
            assert(s.take(pat.len() as int)[0] == pat[0]);
        }
        assert(replaced(s, pat, by) =~= s);
    } else {
        assert(replaced(s, pat, by) =~= s);
    }
}

proof fn lemma_lower_plain(s: Seq<char>, i: int)
    requires
        0 <= i < s.len(),
        !('A' <= s[i] <= 'Z'),
    ensures
        lower(s)[i] == s[i],
{
    lower_case_changes_capitals_alone(s);
}

proof fn lemma_src(u: Seq<char>, b: Seq<char>)
    requires
        forall|i: int| 0 <= i < u.len() ==> #[trigger] u[i] != '"' && u[i] != '&',
    ensures
        attribute_from("<img src=\""@ + u + seq!['"'] + b, "src"@, 0) == Some(u),
{
    reveal_strlit("<img src=\"");
    reveal_strlit("src");
    let head = "<img src=\""@;
    let src = "src"@;
    let tag = head + u + seq!['"'] + b;
    let small = lower(tag);
    lower_case_changes_capitals_alone(tag);
    assert(head.len() == 10);
    assert forall|i: int| 0 <= i < 10 implies #[trigger] tag[i] == head[i] by {}
    assert(tag[0] == '<' && tag[1] == 'i' && tag[2] == 'm' && tag[3] == 'g' && tag[4] == ' ');
    assert(tag[5] == 's' && tag[6] == 'r' && tag[7] == 'c' && tag[8] == '=' && tag[9] == '"');
    assert forall|i: int| 0 <= i < 10 implies #[trigger] small[i] == tag[i] by {
        lemma_lower_plain(tag, i);
    }
    assert(small.subrange(5, 8) =~= src);
    assert(is_at(small, 5, src));
    assert forall|j: int| 0 <= j < 5 implies !#[trigger] is_at(small, j, src) by {
        if is_at(small, j, src) {
            assert(small.subrange(j, j + 3)[0] == small[j]);
            assert(src[0] == 's');
        }
    }
    lemma_found_at(small, 0, src, 5);
    let after = tag.skip(8);
    assert(after[0] == '=');
    lemma_starts_solid(after);
    let eq = seq!['='];
    assert(after.take(1) =~= eq);
    assert(after.subrange(0, 1) =~= eq);
    assert(begins(after, eq));
    let value = after.skip(1);
    assert(value =~= seq!['"'] + u + seq!['"'] + b);
    assert(value[0] == '"');
    lemma_starts_solid(value);
    a_value_is_what_stands_between_its_quotes(u, '"', b);
    only_entities_are_written_out(u);
    assert(is_attribute(tag, 5, 8));
}

proof fn lemma_starts_solid(s: Seq<char>)
    requires
        s.len() > 0,
        !is_white(s[0]),
    ensures
        trim_start_of(s) == s,
{
}

/// The picture of a page is the source of its `<img>` tag, where that says where it is; what follows
/// the tag is looked at after it.
pub proof fn the_source_of_a_tag_is_found(a: Seq<char>, u: Seq<char>, b: Seq<char>, rest: Seq<char>)
    requires
        forall|i: int| 0 <= i < a.len() ==> #[trigger] a[i] != '<',
        forall|i: int|
            0 <= i < u.len() ==> #[trigger] u[i] != '"' && u[i] != '&' && u[i] != '>',
        forall|i: int| 0 <= i < b.len() ==> #[trigger] b[i] != '>',
    ensures
        ({
            let tag = "<img src=\""@ + u + seq!['"'] + b;
            let html = a + tag + seq!['>'] + rest;
            let next = (a.len() + tag.len()) as int;
            &&& is_absolute(u) ==> srcs_from(html, 0) == seq![u] + srcs_from(html, next)
            &&& !is_absolute(u) ==> srcs_from(html, 0) == srcs_from(html, next)
        }),
{
    reveal_strlit("<img src=\"");
    reveal_strlit("<img");
    let head = "<img src=\""@;
    let img = "<img"@;
    let tag = head + u + seq!['"'] + b;
    let html = a + tag + seq!['>'] + rest;
    let start = a.len() as int;
    let n = tag.len() as int;
    let small = lower(html);
    lower_case_changes_capitals_alone(html);
    assert(head.len() == 10 && img.len() == 4);
    assert forall|i: int| 0 <= i < 4 implies #[trigger] small[start + i] == img[i] by {
        assert(html[start + i] == tag[i]);
        assert(tag[i] == head[i]);
        lemma_lower_plain(html, start + i);
    }
    assert(small.subrange(start, start + 4) =~= img);
    assert(is_at(small, start, img));
    assert forall|j: int| 0 <= j < start implies !#[trigger] is_at(small, j, img) by {
        if is_at(small, j, img) {
            assert(small.subrange(j, j + 4)[0] == small[j]);
            assert(img[0] == '<');
            assert(html[j] == a[j]);
        }
    }
    lemma_found_at(small, 0, img, start);
    let tail = html.skip(start);
    assert(tail =~= tag + seq!['>'] + rest);
    assert forall|j: int| 0 <= j < n implies #[trigger] tail[j] != '>' by {
        if j < 10 {
            assert(tail[j] == head[j]);
        } else if j < 10 + u.len() {
            assert(tail[j] == u[j - 10]);
        } else if j > 10 + u.len() {
            assert(tail[j] == b[j - 11 - u.len()]);
        }
    }
    lemma_position(tail, '>', n);
    assert(html.subrange(start, start + n) =~= tag);
    lemma_src(u, b);
}

/// A URL ends like a picture where its path ends in one of the six extensions, in any case of
/// letters, whatever stands before it.
pub proof fn a_url_is_known_by_how_it_ends(path: Seq<char>, e: Seq<char>)
    requires
        spells(e, ".png"@) || spells(e, ".jpg"@) || spells(e, ".jpeg"@) || spells(e, ".gif"@)
            || spells(e, ".webp"@) || spells(e, ".bmp"@),
    ensures
        looks_like_a_picture(path + e),
{
    reveal_strlit(".png");
    reveal_strlit(".jpg");
    reveal_strlit(".jpeg");
    reveal_strlit(".gif");
    reveal_strlit(".webp");
    reveal_strlit(".bmp");
    lemma_spells(e, ".png"@);
    lemma_spells(e, ".jpg"@);
    lemma_spells(e, ".jpeg"@);
    lemma_spells(e, ".gif"@);
    lemma_spells(e, ".webp"@);
    lemma_spells(e, ".bmp"@);
    lower_case_changes_capitals_alone(path + e);
    lower_case_changes_capitals_alone(path);
    lower_case_changes_capitals_alone(e);
    assert(lower(path + e) =~= lower(path) + lower(e));
    holding_is_standing_within(lower(path), lower(e), seq![]);
}

/// Only the two schemes of the web are fetched over, and a line that is a URL names a picture where
/// it names a file, or a page of the web that ends like one.
pub proof fn only_the_web_is_fetched_over(l: LinkParts, why: Seq<char>)
    ensures
        is_web(l.scheme) == (l.scheme == "http"@ || l.scheme == "https"@),
        l.scheme == "file"@ ==> link_names_picture(Ok::<LinkParts, Seq<char>>(l)),
        is_web(l.scheme) && looks_like_a_picture(l.path) ==> link_names_picture(
            Ok::<LinkParts, Seq<char>>(l),
        ),
        l.scheme != "file"@ && !(is_web(l.scheme) && looks_like_a_picture(l.path))
            ==> !link_names_picture(Ok::<LinkParts, Seq<char>>(l)),
        !link_names_picture(Err::<LinkParts, Seq<char>>(why)),
{
}

/// A picture in a URL is what follows its comma, with no white space in it, where what stands before
/// the comma says that it is base64.
pub proof fn a_picture_in_a_url_follows_its_comma(meta: Seq<char>, data: Seq<char>)
    requires
        forall|i: int| 0 <= i < meta.len() ==> #[trigger] meta[i] != ',' && meta[i] != ';',
        forall|i: int| 0 <= i < data.len() ==> !is_white(#[trigger] data[i]),
    ensures
        ({
            let whole = meta + ";base64"@ + seq![','] + data;
            match unpacked(data) {
                Ok(bytes) => data_in(whole) == Ok::<Seq<u8>, Seq<char>>(bytes),
                Err(e) => data_in(whole) == Err::<Seq<u8>, Seq<char>>(
                    "could not read that data: URL: "@ + e,
                ),
            }
        }),
        data_in(meta) is Err,
{
    reveal_strlit(";base64");
    reveal_strlit("base64");
    let lead = meta + ";base64"@;
    let whole = lead + seq![','] + data;
    let n = lead.len() as int;
    assert forall|j: int| 0 <= j < n implies #[trigger] whole[j] != ',' by {
        if j < meta.len() {
            assert(whole[j] == meta[j]);
        } else {
            assert(whole[j] == ";base64"@[j - meta.len()]);
        }
    }
    lemma_position(whole, ',', n);
    assert(whole.take(n) =~= lead);
    assert(whole.skip(n + 1) =~= data);
    assert(lead =~= meta + seq![';'] + "base64"@);
    lemma_split_concat(meta, "base64"@, ';');
    let b = "base64"@;
    lemma_position(b, ';', b.len() as int);
    assert(split_on(b, ';') =~= seq![b]);
    let parts = split_on(lead, ';');
    assert(parts[parts.len() - 1] == b);
    assert(says_base64(lead));
    lemma_solid(data);
    lemma_position(meta, ',', meta.len() as int);
}

proof fn lemma_solid(s: Seq<char>)
    requires
        forall|i: int| 0 <= i < s.len() ==> !is_white(#[trigger] s[i]),
    ensures
        solid(s) == s,
    decreases s.len(),
{
    if s.len() > 0 {
        let front = s.drop_last();
        assert forall|i: int| 0 <= i < front.len() implies !is_white(#[trigger] front[i]) by {
            assert(front[i] == s[i]);
        }
        lemma_solid(front);
        assert(!is_white(s[s.len() - 1]));
        assert(solid(s) =~= s);
    } else {
        assert(solid(s) =~= s);
    }
}

/// White space is taken out, and nothing else.
pub proof fn only_white_space_is_taken_out(s: Seq<char>, c: char)
    ensures
        is_white(c) ==> solid(s.push(c)) == solid(s),
        !is_white(c) ==> solid(s.push(c)) == solid(s).push(c),
        solid(Seq::<char>::empty()).len() == 0,
{
    assert(s.push(c).drop_last() =~= s);
}

// ---- what is kept -----------------------------------------------------------

/// A picture goes as it is where it is of a kind to send, no side of it is longer than any provider
/// keeps, and it is no more than a request will carry.
pub proof fn a_moderate_picture_goes_as_it_is(bytes: Seq<u8>, width: u32, height: u32)
    ensures
        goes_untouched(bytes, width, height) == (sniffed(bytes) is Some && width <= 1568 && height
            <= 1568 && bytes.len() <= 3_500_000),
        is_moderate(width, height) == (1 <= width && width <= 1568 && 1 <= height && height <= 1568),
{
}

/// A picture is kept under its own name, with the extension of its kind.
pub proof fn a_picture_is_kept_under_its_own_name(store: Seq<char>, kind: Seq<char>, id: Seq<char>)
    requires
        store.len() > 0,
        store.last() != '/',
    ensures
        extension_for("image/"@ + kind) == kind,
        place_for(store, "image/"@ + kind, id) == store + seq!['/'] + (id + "."@ + kind),
{
    holding_is_standing_within(seq![], "image/"@, kind);
    let leaf = id + "."@ + kind;
    assert(store.push('/') + leaf =~= store + seq!['/'] + leaf);
}

} // verus!
