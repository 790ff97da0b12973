//! A single pasted line read as a path to an image.

use crate::images::telling::{a_plain_path_is_taken_as_it_stands, is_plain_path};
use crate::images::{sniff, sniffed};
use crate::paths::{at_home, expand_home, maybe};
use crate::text::{begins, chars_of, lemma_position_found, position, string_of, trim, trim_of};
use crate::words::{
    last_position, last_position_of, lower, lowered, past, replace, replaced, strip_lead,
};
use vstd::prelude::*;
use vstd::slice::slice_subrange;
use vstd::utf8::{
    decode_utf8, encode_utf8, encode_utf8_decode_utf8, encode_utf8_valid_utf8, valid_utf8,
};

verus! {

/// The value of a hex digit, or nothing.
pub open spec fn hex_value(c: char) -> Option<int> {
    if '0' <= c <= '9' {
        Some(c as u32 - '0' as u32)
    } else if 'a' <= c <= 'f' {
        Some(c as u32 - 'a' as u32 + 10)
    } else if 'A' <= c <= 'F' {
        Some(c as u32 - 'A' as u32 + 10)
    } else {
        None
    }
}

fn hex_digit(c: char) -> (r: Option<u8>)
    ensures
        match r {
            Some(v) => hex_value(c) == Some(v as int) && v < 16,
            None => hex_value(c) is None,
        },
{
    if '0' <= c && c <= '9' {
        Some((c as u32 - '0' as u32) as u8)
    } else if 'a' <= c && c <= 'f' {
        Some((c as u32 - 'a' as u32 + 10) as u8)
    } else if 'A' <= c && c <= 'F' {
        Some((c as u32 - 'A' as u32 + 10) as u8)
    } else {
        None
    }
}

/// The number that the one or two characters at the front of `s` write in hex, or nothing. A plus
/// sign may stand before a single digit.
pub open spec fn hex_front(s: Seq<char>) -> Option<int> {
    if s.len() == 0 {
        None
    } else if s.len() == 1 {
        hex_value(s[0])
    } else if s[0] == '+' {
        hex_value(s[1])
    } else if hex_value(s[0]) is Some && hex_value(s[1]) is Some {
        Some(16 * hex_value(s[0])->0 + hex_value(s[1])->0)
    } else {
        None
    }
}

fn read_hex(s: &[char]) -> (r: Option<u8>)
    ensures
        match r {
            Some(v) => hex_front(s@) == Some(v as int),
            None => hex_front(s@) is None,
        },
{
    if s.len() == 0 {
        return None;
    }
    if s.len() == 1 {
        return hex_digit(s[0]);
    }
    if s[0] == '+' {
        return hex_digit(s[1]);
    }
    match (hex_digit(s[0]), hex_digit(s[1])) {
        (Some(a), Some(b)) => Some(16 * a + b),
        _ => None,
    }
}

/// What follows a percent-escape at the front of `s`.
pub open spec fn after_escape(s: Seq<char>) -> Seq<char> {
    if s.len() >= 3 {
        s.skip(3)
    } else {
        seq![]
    }
}

/// Whether a percent-escape stands at the front of `s`.
pub open spec fn is_escape(s: Seq<char>) -> bool {
    s.len() > 0 && s[0] == '%' && hex_front(s.skip(1)) is Some
}

/// The bytes that a text with percent-escapes stands for: the one that each escape writes, and those
/// of every other character in UTF-8.
pub open spec fn escaped_bytes(s: Seq<char>) -> Seq<u8>
    decreases s.len(),
{
    if s.len() == 0 {
        seq![]
    } else if is_escape(s) {
        seq![hex_front(s.skip(1))->0 as u8] + escaped_bytes(after_escape(s))
    } else {
        encode_utf8(seq![s[0]]) + escaped_bytes(s.skip(1))
    }
}

/// A text with a character for each of its percent-escapes.
pub open spec fn by_character(s: Seq<char>) -> Seq<char>
    decreases s.len(),
{
    if s.len() == 0 {
        seq![]
    } else if is_escape(s) {
        seq![(hex_front(s.skip(1))->0 as u8) as char] + by_character(after_escape(s))
    } else {
        seq![s[0]] + by_character(s.skip(1))
    }
}

/// A text with its percent-escapes written out: what its bytes say in UTF-8, or a character for each
/// escape where they say nothing.
pub open spec fn unescaped(s: Seq<char>) -> Seq<char> {
    if valid_utf8(escaped_bytes(s)) {
        decode_utf8(escaped_bytes(s))
    } else {
        by_character(s)
    }
}

/// `String::from_utf8`: the text that some bytes are in UTF-8, and nothing where they are not valid
/// UTF-8.
#[verifier::external_body]
fn text_in(bytes: Vec<u8>) -> (r: Option<String>)
    ensures
        match r {
            Some(t) => valid_utf8(bytes@) && t@ == decode_utf8(bytes@),
            None => !valid_utf8(bytes@),
        },
{
    String::from_utf8(bytes).ok()
}

/// `%20` and friends, for a path that came through a `file://` URL.
pub fn unescape(s: &[char]) -> (r: Vec<char>)
    ensures
        r@ == unescaped(s@),
{
    let mut bytes: Vec<u8> = Vec::new();
    let mut r: Vec<char> = Vec::new();
    let mut i: usize = 0;
    proof {
        assert(s@.skip(0) =~= s@);
        assert(r@ + by_character(s@) =~= by_character(s@));
        assert(bytes@ + escaped_bytes(s@) =~= escaped_bytes(s@));
    }
    while i < s.len()
        invariant
            i <= s@.len(),
            r@ + by_character(s@.skip(i as int)) == by_character(s@),
            bytes@ + escaped_bytes(s@.skip(i as int)) == escaped_bytes(s@),
        decreases s@.len() - i,
    {
        let ghost rest = s@.skip(i as int);
        let ghost said = r@;
        let ghost held = bytes@;
        let c = s[i];
        assert(rest[0] == c);
        if c == '%' {
            let tail = slice_subrange(s, i + 1, s.len());
            assert(tail@ =~= rest.skip(1));
            if let Some(b) = read_hex(tail) {
                r.push(b as char);
                bytes.push(b);
                if s.len() - i >= 3 {
                    i = i + 3;
                } else {
                    i = s.len();
                }
                proof {
                    assert(after_escape(rest) =~= s@.skip(i as int));
                    assert(r@ + by_character(after_escape(rest)) =~= said + by_character(rest));
                    assert(bytes@ + escaped_bytes(after_escape(rest)) =~= held + escaped_bytes(rest));
                }
                continue;
            }
        }
        r.push(c);
        let one = string_of(slice_subrange(s, i, i + 1));
        push_bytes(&mut bytes, one.as_str().as_bytes());
        i = i + 1;
        proof {
            assert(one@ =~= seq![c]);
            assert(rest.skip(1) =~= s@.skip(i as int));
            assert(r@ + by_character(s@.skip(i as int)) =~= said + by_character(rest));
            assert(bytes@ + escaped_bytes(s@.skip(i as int)) =~= held + escaped_bytes(rest));
        }
    }
    proof {
        assert(s@.skip(i as int) =~= seq![]);
        assert(r@ + Seq::<char>::empty() =~= r@);
        assert(bytes@ + Seq::<u8>::empty() =~= bytes@);
    }
    match text_in(bytes) {
        Some(t) => chars_of(t.as_str()),
        None => r,
    }
}

fn push_bytes(r: &mut Vec<u8>, more: &[u8])
    ensures
        final(r)@ == old(r)@ + more@,
{
    let ghost before = r@;
    let mut i: usize = 0;
    assert(before + more@.take(0) =~= before);
    while i < more.len()
        invariant
            i <= more@.len(),
            r@ == before + more@.take(i as int),
        decreases more@.len() - i,
    {
        r.push(more[i]);
        i = i + 1;
        assert(before + more@.take(i as int) =~= (before + more@.take(i - 1)).push(more@[i - 1]));
    }
    assert(more@.take(i as int) =~= more@);
}

/// What stands between a pair of the same quote, if a text is that.
pub open spec fn within(s: Seq<char>, quote: char) -> Option<Seq<char>> {
    if s.len() >= 2 && s[0] == quote && s.last() == quote {
        Some(s.subrange(1, s.len() - 1))
    } else {
        None
    }
}

/// A text without the quotes around it.
pub open spec fn unquoted(s: Seq<char>) -> Seq<char> {
    if within(s, '"') is Some {
        within(s, '"')->0
    } else if within(s, '\'') is Some {
        within(s, '\'')->0
    } else {
        s
    }
}

/// The path that a dragged file arrives as, before its `~` is written out: out of its quotes, out
/// of its `file://` URL, and with its spaces unescaped whichever way they were escaped.
pub open spec fn dragged(s: Seq<char>) -> Seq<char> {
    let bare = unquoted(s);
    match past(bare, "file://"@) {
        Some(rest) => unescaped(
            match past(rest, "localhost"@) {
                Some(local) => local,
                None => rest,
            },
        ),
        None => replaced(bare, seq!['\\', ' '], seq![' ']),
    }
}

/// The last name of a path.
pub open spec fn leaf_of(path: Seq<char>) -> Seq<char> {
    path.skip(last_position_of(path, '/') + 1)
}

/// The extension of a path: what follows the last dot of its last name, unless the name begins
/// with that dot.
pub open spec fn extension_of(path: Seq<char>) -> Option<Seq<char>> {
    let leaf = leaf_of(path);
    let dot = last_position_of(leaf, '.');
    if dot > 0 {
        Some(leaf.skip(dot + 1))
    } else {
        None
    }
}

/// Whether a path is called what only a picture is called.
pub open spec fn is_named_as_picture(path: Seq<char>) -> bool {
    match extension_of(path) {
        Some(e) => {
            let ext = lower(e);
            ext == "png"@ || ext == "jpg"@ || ext == "jpeg"@ || ext == "gif"@ || ext == "webp"@
        },
        None => false,
    }
}

/// Whether a text is one line with something on it.
pub open spec fn is_one_line(s: Seq<char>) -> bool {
    s.len() > 0 && !s.contains('\n')
}

/// A text without the quotes around it.
fn unquote(s: &[char]) -> (r: &[char])
    ensures
        r@ == unquoted(s@),
{
    let n = s.len();
    if n >= 2 && ((s[0] == '"' && s[n - 1] == '"') || (s[0] == '\'' && s[n - 1] == '\'')) {
        slice_subrange(s, 1, n - 1)
    } else {
        s
    }
}

/// The last name of a path.
pub fn leaf(path: &[char]) -> (r: &[char])
    ensures
        r@ == leaf_of(path@),
{
    let n = path.len();
    match last_position(path, '/') {
        Some(i) => {
            let r = slice_subrange(path, i + 1, n);
            assert(r@ =~= path@.skip(i + 1));
            r
        },
        None => {
            assert(path@.skip(0) =~= path@);
            path
        },
    }
}

/// Whether a path is called what only a picture is called. A hint about whether it is worth
/// reading, not the answer: the answer is in the bytes.
pub fn named_as_picture(path: &[char]) -> (r: bool)
    ensures
        r == is_named_as_picture(path@),
{
    let l = leaf(path);
    let n = l.len();
    match last_position(l, '.') {
        Some(dot) => if dot > 0 {
            let e = slice_subrange(l, dot + 1, n);
            assert(e@ =~= l@.skip(dot + 1));
            let ext = string_of(lowered(e).as_slice());
            let ext = ext.as_str();
            crate::text::same_text(ext, "png") || crate::text::same_text(ext, "jpg")
                || crate::text::same_text(ext, "jpeg") || crate::text::same_text(ext, "gif")
                || crate::text::same_text(ext, "webp")
        } else {
            false
        },
        None => false,
    }
}

/// Where the file is that a single pasted line may name, or nothing: one line, one path, and called
/// what only a picture is called. What is there, if anything, the caller reads, and
/// [`pasted_path`] judges.
pub fn dragged_path(text: &str, home: Option<&str>) -> (r: Option<String>)
    ensures
        ({
            let line = trim_of(text@);
            &&& !is_one_line(line) ==> r is None
            &&& is_one_line(line) && !begins(dragged(line), seq!['~', '\\']) ==> {
                let path = at_home(dragged(line), maybe(home));
                if is_named_as_picture(path) {
                    r is Some && r->0@ == path
                } else {
                    r is None
                }
            }
            &&& r is Some ==> is_named_as_picture(r->0@)
        }),
        // A path as somebody would type it is that path, where a picture could be called that.
        is_plain_path(text@) ==> (r is Some) == is_named_as_picture(text@) && (r is Some ==> r->0@
            == text@),
{
    proof {
        if is_plain_path(text@) {
            a_plain_path_is_taken_as_it_stands(text@, maybe(home));
        }
    }
    let chars = chars_of(text);
    let line = trim(chars.as_slice());
    let newline = position(line, '\n');
    proof {
        lemma_position_found(line@, '\n');
        if newline < line@.len() {
            assert(line@.contains('\n'));
        } else {
            assert(!line@.contains('\n')) by {
                if line@.contains('\n') {
                    let j = choose|j: int| 0 <= j < line@.len() && line@[j] == '\n';
                    assert(line@[j] != '\n');
                }
            }
        }
    }
    if line.len() == 0 || newline < line.len() {
        return None;
    }
    let bare = unquote(line);
    let path = match strip_lead(bare, "file://") {
        // The authority is empty for a local file, and percent-escapes are how a space survives
        // the trip.
        Some(rest) => match strip_lead(rest, "localhost") {
            Some(local) => unescape(local),
            None => unescape(rest),
        },
        // A drag also escapes spaces the shell's way, which is what makes the path a single word.
        None => {
            proof {
                reveal_strlit("\\ ");
                reveal_strlit(" ");
                assert("\\ "@ =~= seq!['\\', ' ']);
                assert(" "@ =~= seq![' ']);
            }
            replace(bare, "\\ ", " ")
        },
    };
    let path = string_of(path.as_slice());
    assert(path@ == dragged(line@));
    let full = expand_home(path.as_str(), home);
    let full_chars = chars_of(full.as_str());
    if named_as_picture(full_chars.as_slice()) {
        Some(full)
    } else {
        None
    }
}

/// Whether there is a file, and what it holds is a picture of a kind to send.
pub open spec fn holds_picture(bytes: Option<&[u8]>) -> bool {
    match bytes {
        Some(b) => sniffed(b@) is Some,
        None => false,
    }
}

/// A single pasted line read as a path to an image, or nothing. `bytes` is what the file at
/// [`dragged_path`] holds, and nothing where there is no file.
///
/// This is what makes dragging a file onto the terminal work, so it has to be *quiet*: anything it
/// is unsure about is ordinary text, because inserting what was typed is the behaviour somebody is
/// expecting and swallowing it is not. One line, one path, a file that exists, and bytes that are an
/// image: four gates.
pub fn pasted_path(text: &str, home: Option<&str>, bytes: Option<&[u8]>) -> (r: Option<String>)
    ensures
        ({
            let line = trim_of(text@);
            &&& !is_one_line(line) || !holds_picture(bytes) ==> r is None
            &&& is_one_line(line) && !begins(dragged(line), seq!['~', '\\']) ==> {
                let path = at_home(dragged(line), maybe(home));
                if is_named_as_picture(path) && holds_picture(bytes) {
                    r is Some && r->0@ == path
                } else {
                    r is None
                }
            }
            &&& r is Some ==> is_named_as_picture(r->0@)
        }),
        is_plain_path(text@) ==> (r is Some) == (is_named_as_picture(text@) && holds_picture(bytes))
            && (r is Some ==> r->0@ == text@),
{
    match bytes {
        Some(b) => if sniff(b).is_some() {
            dragged_path(text, home)
        } else {
            None
        },
        None => None,
    }
}

/// A program's output read as the one line that says where a file is, or nothing. Whether there is
/// a file there is the caller's to find out.
pub fn as_path_line(out: &str) -> (r: Option<String>)
    ensures
        ({
            let line = trim_of(out@);
            if line.len() > 0 && crate::words::lines_of(line).len() == 1 {
                r is Some && r->0@ == line
            } else {
                r is None
            }
        }),
{
    let chars = chars_of(out);
    let line = trim(chars.as_slice());
    let ls = crate::words::lines(line);
    assert(crate::words::slices(ls@).len() == ls@.len());
    if line.len() > 0 && ls.len() == 1 {
        Some(string_of(line))
    } else {
        None
    }
}

/// The hex digit for a number below sixteen.
pub open spec fn hex_of(n: int) -> char {
    if 0 <= n < 10 {
        (('0' as u8 + n) as u8) as char
    } else {
        (('A' as u8 + (n - 10)) as u8) as char
    }
}

/// Some bytes with each of them as a percent-escape.
pub open spec fn percent_escaped(bytes: Seq<u8>) -> Seq<char>
    decreases bytes.len(),
{
    if bytes.len() == 0 {
        seq![]
    } else {
        seq!['%', hex_of(bytes[0] as int / 16), hex_of(bytes[0] as int % 16)] + percent_escaped(
            bytes.skip(1),
        )
    }
}

proof fn lemma_hex_digit(n: int)
    requires
        0 <= n < 16,
    ensures
        hex_value(hex_of(n)) == Some(n),
        hex_of(n) != '+',
{
    if n < 10 {
        let b = ('0' as u8 + n) as u8;
        assert(b == 48 + n);
        assert(b as char as u32 == b as u32);
    } else {
        let b = ('A' as u8 + (n - 10)) as u8;
        assert(b == 55 + n);
        assert(b as char as u32 == b as u32);
    }
}

proof fn lemma_escaped(bytes: Seq<u8>, tail: Seq<char>)
    ensures
        escaped_bytes(percent_escaped(bytes) + tail) == bytes + escaped_bytes(tail),
    decreases bytes.len(),
{
    let s = percent_escaped(bytes) + tail;
    if bytes.len() == 0 {
        assert(s =~= tail);
        assert(bytes + escaped_bytes(tail) =~= escaped_bytes(tail));
    } else {
        let b = bytes[0] as int;
        let rest = percent_escaped(bytes.skip(1)) + tail;
        lemma_hex_digit(b / 16);
        lemma_hex_digit(b % 16);
        let t = s.skip(1);
        assert(s[0] == '%' && t[0] == hex_of(b / 16) && t[1] == hex_of(b % 16));
        assert(hex_front(t) == Some(b));
        assert(after_escape(s) =~= rest);
        lemma_escaped(bytes.skip(1), tail);
        assert(escaped_bytes(s) =~= bytes + escaped_bytes(tail));
    }
}

proof fn lemma_unescaped_bytes(a: Seq<char>, tail: Seq<char>)
    requires
        !a.contains('%'),
    ensures
        escaped_bytes(a + tail) == encode_utf8(a) + escaped_bytes(tail),
    decreases a.len(),
{
    let s = a + tail;
    if a.len() == 0 {
        assert(s =~= tail);
        assert(encode_utf8(a) + escaped_bytes(tail) =~= escaped_bytes(tail));
    } else {
        assert(s[0] == a[0]);
        assert(a.contains(a[0]));
        let rest = a.skip(1);
        assert(!rest.contains('%')) by {
            if rest.contains('%') {
                let j = choose|j: int| 0 <= j < rest.len() && rest[j] == '%';
                assert(a[j + 1] == '%');
            }
        }
        assert(s.skip(1) =~= rest + tail);
        lemma_unescaped_bytes(rest, tail);
        assert(a.drop_first() =~= rest);
        reveal_with_fuel(encode_utf8, 2);
        assert(seq![a[0]].drop_first() =~= seq![]);
        assert(encode_utf8(seq![a[0]]) =~= vstd::utf8::encode_scalar(a[0] as u32));
        assert(escaped_bytes(s) =~= encode_utf8(a) + escaped_bytes(tail));
    }
}

proof fn lemma_encoded_concat(a: Seq<char>, b: Seq<char>)
    ensures
        encode_utf8(a + b) == encode_utf8(a) + encode_utf8(b),
    decreases a.len(),
{
    if a.len() == 0 {
        assert(a + b =~= b);
        assert(encode_utf8(a) + encode_utf8(b) =~= encode_utf8(b));
    } else {
        assert((a + b).drop_first() =~= a.drop_first() + b);
        lemma_encoded_concat(a.drop_first(), b);
        assert(encode_utf8(a + b) =~= encode_utf8(a) + encode_utf8(b));
    }
}

/// Escaping some characters the way a URL does, byte by byte, is undone on the way back in, whatever
/// the characters are.
pub proof fn what_a_url_escapes_comes_back(a: Seq<char>, escaped: Seq<char>, b: Seq<char>)
    requires
        !a.contains('%'),
        !b.contains('%'),
    ensures
        unescaped(a + percent_escaped(encode_utf8(escaped)) + b) == a + escaped + b,
{
    let mid = percent_escaped(encode_utf8(escaped));
    let none: Seq<char> = seq![];
    let whole = a + escaped + b;
    assert(a + mid + b =~= a + (mid + (b + none)));
    lemma_unescaped_bytes(a, mid + (b + none));
    lemma_escaped(encode_utf8(escaped), b + none);
    lemma_unescaped_bytes(b, none);
    lemma_encoded_concat(a + escaped, b);
    lemma_encoded_concat(a, escaped);
    assert(escaped_bytes(none) =~= seq![]);
    assert(escaped_bytes(a + mid + b) =~= encode_utf8(whole));
    encode_utf8_valid_utf8(whole);
    encode_utf8_decode_utf8(whole);
}

/// Escaping a space the way a URL does is undone on the way back in.
pub proof fn an_escaped_space_survives(a: Seq<char>, b: Seq<char>)
    requires
        !a.contains('%'),
        !b.contains('%'),
    ensures
        unescaped(a + seq!['%', '2', '0'] + b) == a + seq![' '] + b,
{
    let space: Seq<char> = seq![' '];
    reveal_with_fuel(encode_utf8, 2);
    assert(space.drop_first() =~= seq![]);
    let bytes = encode_utf8(space);
    assert((32u32 & 0x7F) as u8 == 32u8) by (bit_vector);
    assert(vstd::utf8::encode_scalar(' ' as u32) =~= seq![32u8]);
    assert(bytes =~= seq![32u8]);
    reveal_with_fuel(percent_escaped, 2);
    assert(bytes.skip(1) =~= seq![]);
    assert(hex_of(2) == '2');
    assert(hex_of(0) == '0');
    assert(percent_escaped(bytes) =~= seq!['%', '2', '0']);
    what_a_url_escapes_comes_back(a, space, b);
}

} // verus!
