//! What a clipboard's text says about where a picture is.

use crate::text::{
    begins, chars_of, find_from, found_from, is_space, is_white, position, position_of, same_text,
    split_on, starts_with, string_of, texts, trim, trim_of, trim_start, trim_start_of,
};
use crate::words::{
    leads, lines, lines_of, lower, lowered, past, replace, replaced, slices, strip_lead, trails,
};
use vstd::prelude::*;
use vstd::slice::slice_subrange;

verus! {

/// A text with the five entities that turn up in an attribute somebody meant as a URL written out.
pub open spec fn unentitied(s: Seq<char>) -> Seq<char> {
    let a = replaced(s, "&amp;"@, "&"@);
    let b = replaced(a, "&quot;"@, "\""@);
    let c = replaced(b, "&#39;"@, "'"@);
    let d = replaced(c, "&lt;"@, "<"@);
    replaced(d, "&gt;"@, ">"@)
}

/// The five entities that turn up in an attribute somebody meant as a URL.
pub fn unentity(s: &[char]) -> (r: String)
    ensures
        r@ == unentitied(s@),
{
    proof {
        reveal_strlit("&amp;");
        reveal_strlit("&quot;");
        reveal_strlit("&#39;");
        reveal_strlit("&lt;");
        reveal_strlit("&gt;");
    }
    let a = replace(s, "&amp;", "&");
    let b = replace(a.as_slice(), "&quot;", "\"");
    let c = replace(b.as_slice(), "&#39;", "'");
    let d = replace(c.as_slice(), "&lt;", "<");
    let e = replace(d.as_slice(), "&gt;", ">");
    string_of(e.as_slice())
}

/// Where the first white space of a text is, or its length.
pub open spec fn first_white(s: Seq<char>) -> int
    decreases s.len(),
{
    if s.len() == 0 || is_white(s[0]) {
        0
    } else {
        1 + first_white(s.skip(1))
    }
}

fn find_white(s: &[char]) -> (r: usize)
    ensures
        r == first_white(s@),
        r <= s@.len(),
{
    let mut i: usize = 0;
    assert(s@.skip(0) =~= s@);
    while i < s.len() && !is_space(s[i])
        invariant
            i <= s@.len(),
            first_white(s@) == i + first_white(s@.skip(i as int)),
        decreases s@.len() - i,
    {
        assert(s@.skip(i as int).skip(1) =~= s@.skip(i + 1));
        i = i + 1;
    }
    assert(first_white(s@.skip(i as int)) == 0);
    i
}

/// The value that follows an attribute's equals sign: what is between quotes, if it opens with one
/// and they close, and otherwise up to the first white space.
pub open spec fn value_of(s: Seq<char>) -> Option<Seq<char>> {
    if s.len() > 0 && (s[0] == '"' || s[0] == '\'') {
        let rest = s.skip(1);
        let end = position_of(rest, s[0]);
        if end < rest.len() {
            Some(rest.take(end))
        } else {
            None
        }
    } else {
        Some(s.take(first_white(s)))
    }
}

/// Whether the name at `at` is an attribute of its own: white space before it, and an equals sign
/// after it.
pub open spec fn is_attribute(tag: Seq<char>, at: int, after: int) -> bool {
    &&& at == 0 || is_white(tag[at - 1])
    &&& begins(trim_start_of(tag.skip(after)), seq!['='])
}

/// The value of the first attribute of that name at or after `from`.
pub open spec fn attribute_from(tag: Seq<char>, name: Seq<char>, from: int) -> Option<Seq<char>>
    decreases tag.len() - from,
{
    match found_from(lower(tag), from, name) {
        None => None,
        Some(at) => {
            let after = at + name.len();
            if from <= at && from < after <= tag.len() {
                if is_attribute(tag, at, after) {
                    match value_of(trim_start_of(trim_start_of(tag.skip(after)).skip(1))) {
                        Some(v) => Some(unentitied(v)),
                        None => None,
                    }
                } else {
                    attribute_from(tag, name, after)
                }
            } else {
                None
            }
        },
    }
}

/// One attribute out of one tag.
pub fn attribute(tag: &[char], name: &str) -> (r: Option<String>)
    requires
        name@.len() > 0,
    ensures
        match r {
            Some(v) => attribute_from(tag@, name@, 0) == Some(v@),
            None => attribute_from(tag@, name@, 0) is None,
        },
{
    let small = lowered(tag);
    let wanted = chars_of(name);
    let n = tag.len();
    let mut from: usize = 0;
    loop
        invariant
            small@ == lower(tag@),
            wanted@ == name@,
            name@.len() > 0,
            n == tag@.len(),
            from <= n,
            attribute_from(tag@, name@, 0) == attribute_from(tag@, name@, from as int),
        decreases n - from,
    {
        let at = match find_from(small.as_slice(), from, wanted.as_slice()) {
            None => return None,
            Some(at) => at,
        };
        let after = at + wanted.len();
        let rest = trim_start(slice_subrange(tag, after, n));
        assert(tag@.subrange(after as int, n as int) =~= tag@.skip(after as int));
        let equals = ['='];
        assert(equals@ =~= seq!['=']);
        // `srcset` and `data-src` are not `src`: the name has to start and end where it looks like
        // it does.
        if (at == 0 || is_space(tag[at - 1])) && starts_with(rest, equals.as_slice()) {
            let said = slice_subrange(rest, 1, rest.len());
            assert(said@ =~= rest@.skip(1));
            let v = trim_start(said);
            if v.len() > 0 && (v[0] == '"' || v[0] == '\'') {
                let inner = slice_subrange(v, 1, v.len());
                assert(inner@ =~= v@.skip(1));
                let end = position(inner, v[0]);
                if end >= inner.len() {
                    return None;
                }
                let value = slice_subrange(inner, 0, end);
                assert(value@ =~= inner@.take(end as int));
                return Some(unentity(value));
            }
            let end = find_white(v);
            let value = slice_subrange(v, 0, end);
            assert(value@ =~= v@.take(end as int));
            return Some(unentity(value));
        }
        from = after;
    }
}

/// Whether a source says where it is without a page to say it from.
pub open spec fn is_absolute(src: Seq<char>) -> bool {
    begins(src, "http://"@) || begins(src, "https://"@) || begins(src, "data:"@)
}

/// Where the tag that opens at `start` closes.
pub open spec fn tag_end(html: Seq<char>, start: int) -> int {
    start + position_of(html.skip(start), '>')
}

/// The sources of the `<img>` tags at or after `from`, in the order they appear. Relative ones are
/// dropped: the fragment carries no base to resolve them against.
pub open spec fn srcs_from(html: Seq<char>, from: int) -> Seq<Seq<char>>
    decreases html.len() - from,
{
    match found_from(lower(html), from, "<img"@) {
        None => seq![],
        Some(start) => {
            let end = tag_end(html, start);
            let next = if end >= start + 4 {
                end
            } else {
                start + 4
            };
            if from <= start && from < next <= html.len() {
                let rest = srcs_from(html, next);
                match attribute_from(html.subrange(start, end), "src"@, 0) {
                    Some(src) => if is_absolute(src) {
                        seq![src] + rest
                    } else {
                        rest
                    },
                    None => rest,
                }
            } else {
                seq![]
            }
        },
    }
}

/// Every `src` in the `<img>` tags of a fragment of clipboard HTML, in the order they appear.
///
/// This is not a document, it is the one tag a browser wrote out when you pressed copy, and what is
/// wanted from it is one attribute.
pub fn img_srcs(html: &str) -> (r: Vec<String>)
    ensures
        texts(r@) == srcs_from(html@, 0),
{
    let chars = chars_of(html);
    let small = lowered(chars.as_slice());
    let open = chars_of("<img");
    let n = chars.len();
    let mut found: Vec<String> = Vec::new();
    let mut from: usize = 0;
    proof {
        reveal_strlit("<img");
        reveal_strlit("src");
        assert(texts(found@) + srcs_from(html@, 0) =~= srcs_from(html@, 0));
    }
    loop
        invariant
            chars@ == html@,
            small@ == lower(html@),
            open@ == "<img"@,
            open@.len() == 4,
            "src"@.len() == 3,
            n == html@.len(),
            from <= n,
            texts(found@) + srcs_from(html@, from as int) == srcs_from(html@, 0),
        decreases n - from,
    {
        let ghost before = texts(found@);
        let start = match find_from(small.as_slice(), from, open.as_slice()) {
            None => {
                assert(before + Seq::<Seq<char>>::empty() =~= before);
                return found;
            },
            Some(start) => start,
        };
        let tail = slice_subrange(chars.as_slice(), start, n);
        assert(tail@ =~= html@.skip(start as int));
        let close = position(tail, '>');
        let end = start + close;
        let ghost next = if end >= start + 4 {
            end as int
        } else {
            start + 4
        };
        let tag = slice_subrange(chars.as_slice(), start, end);
        assert(tag@ == html@.subrange(start as int, end as int));
        let ghost rest = srcs_from(html@, next);
        let mut taken: Option<String> = None;
        if let Some(src) = attribute(tag, "src") {
            let sc = chars_of(src.as_str());
            if leads(sc.as_slice(), "http://") || leads(sc.as_slice(), "https://") || leads(
                sc.as_slice(),
                "data:",
            ) {
                taken = Some(src);
            }
        }
        if let Some(src) = taken {
            let ghost said = src@;
            found.push(src);
            assert(texts(found@) =~= before.push(said));
            assert(texts(found@) + rest =~= before + (seq![said] + rest));
        }
        from = if close >= 4 {
            end
        } else {
            start + 4
        };
    }
}

/// What is wanted of a URL.
#[derive(Debug)]
pub struct Link {
    pub scheme: String,
    pub path: String,
    /// Whose server it is on, if it says.
    pub host: Option<String>,
    /// The URL as it is written once it has been read.
    pub text: String,
}

/// What is wanted of a URL, as text.
pub struct LinkParts {
    pub scheme: Seq<char>,
    pub path: Seq<char>,
    pub host: Option<Seq<char>>,
    pub text: Seq<char>,
}

pub open spec fn parts(l: Link) -> LinkParts {
    LinkParts {
        scheme: l.scheme@,
        path: l.path@,
        host: match l.host {
            Some(h) => Some(h@),
            None => None,
        },
        text: l.text@,
    }
}

/// What `url` reads in a text: the parts of a URL, or what it says when there is none.
pub uninterp spec fn link_of(text: Seq<char>) -> Result<LinkParts, Seq<char>>;

/// `url::Url::parse`, and the parts of what it read that are wanted here, or its error as text.
/// Which texts are URLs and how they come apart is left to the name.
#[verifier::external_body]
fn read_link(text: &str) -> (r: Result<Link, String>)
    ensures
        match r {
            Ok(l) => link_of(text@) == Ok::<LinkParts, Seq<char>>(parts(l)),
            Err(e) => link_of(text@) == Err::<LinkParts, Seq<char>>(e@),
        },
{
    let url = url::Url::parse(text).map_err(|e| e.to_string())?;
    Ok(Link {
        scheme: url.scheme().to_string(),
        path: url.path().to_string(),
        host: url.host_str().map(|h| h.to_string()),
        text: url.as_str().to_string(),
    })
}

/// Whether a URL's own path ends in something only a picture is called.
pub open spec fn looks_like_a_picture(path: Seq<char>) -> bool {
    let p = lower(path);
    crate::text::ends(p, ".png"@) || crate::text::ends(p, ".jpg"@) || crate::text::ends(
        p,
        ".jpeg"@,
    ) || crate::text::ends(p, ".gif"@) || crate::text::ends(p, ".webp"@) || crate::text::ends(
        p,
        ".bmp"@,
    )
}

/// Whether a URL's own path ends in something only a picture is called.
pub fn named_like_a_picture(path: &str) -> (r: bool)
    ensures
        r == looks_like_a_picture(path@),
{
    let chars = chars_of(path);
    let p = lowered(chars.as_slice());
    let p = p.as_slice();
    trails(p, ".png") || trails(p, ".jpg") || trails(p, ".jpeg") || trails(p, ".gif") || trails(
        p,
        ".webp",
    ) || trails(p, ".bmp")
}

/// Whether a scheme is one to fetch over.
pub open spec fn is_web(scheme: Seq<char>) -> bool {
    scheme == "http"@ || scheme == "https"@
}

fn web(scheme: &str) -> (r: bool)
    ensures
        r == is_web(scheme@),
{
    same_text(scheme, "http") || same_text(scheme, "https")
}

/// Whether a line that is a URL names a picture, from what the URL comes apart into: a file, or a
/// page's address that ends in a picture's extension.
pub open spec fn link_names_picture(link: Result<LinkParts, Seq<char>>) -> bool {
    match link {
        Ok(l) => l.scheme == "file"@ || (is_web(l.scheme) && looks_like_a_picture(l.path)),
        Err(_) => false,
    }
}

/// Whether a line that is a URL names a picture.
pub fn link_is_picture(link: &Result<Link, String>) -> (r: bool)
    ensures
        r == link_names_picture(
            match *link {
                Ok(l) => Ok(parts(l)),
                Err(e) => Err(e@),
            },
        ),
{
    match link {
        Ok(l) => same_text(l.scheme.as_str(), "file") || (web(l.scheme.as_str())
            && named_like_a_picture(l.path.as_str())),
        Err(_) => false,
    }
}

/// Whether a text names a picture, and is not just a line of text. `on_disk` says whether it is
/// the path of an image that is there.
pub open spec fn names_picture(text: Seq<char>, on_disk: bool) -> bool {
    let line = trim_of(text);
    &&& line.len() > 0
    &&& lines_of(line).len() == 1
    &&& begins(line, "data:"@) || on_disk || link_names_picture(link_of(line))
}

/// A line of plain text read as "the picture is over there", or nothing.
///
/// Strict: an `<img>` tag has already said the thing it points at is a picture, whereas a line of
/// text is usually a line of text. So a URL here has to *end* in a picture's extension before a key
/// press will go and fetch it.
pub fn plain_named(text: &str, on_disk: bool) -> (r: Option<String>)
    ensures
        if names_picture(text@, on_disk) {
            r is Some && r->0@ == trim_of(text@)
        } else {
            r is None
        },
{
    let chars = chars_of(text);
    let line = trim(chars.as_slice());
    let ls = lines(line);
    assert(slices(ls@).len() == ls@.len());
    if line.len() == 0 || ls.len() != 1 {
        return None;
    }
    let said = string_of(line);
    if leads(line, "data:") || on_disk {
        return Some(said);
    }
    let link = read_link(said.as_str());
    if link_is_picture(&link) {
        Some(said)
    } else {
        None
    }
}

/// The lines of a list of URIs that name something: comments are part of the format and are not
/// paths.
pub open spec fn uris_in(ls: Seq<Seq<char>>) -> Seq<Seq<char>>
    decreases ls.len(),
{
    if ls.len() == 0 {
        seq![]
    } else {
        let line = trim_of(ls.last());
        let above = uris_in(ls.drop_last());
        if line.len() > 0 && line[0] != '#' {
            above.push(line)
        } else {
            above
        }
    }
}

fn uri_list(text: &[char]) -> (r: Vec<String>)
    ensures
        texts(r@) == uris_in(lines_of(text@)),
{
    let ls = lines(text);
    let ghost all = lines_of(text@);
    let mut r: Vec<String> = Vec::new();
    let mut i: usize = 0;
    assert(slices(ls@).len() == ls@.len());
    assert(all.take(0) =~= seq![]);
    assert(texts(r@) =~= uris_in(all.take(0)));
    while i < ls.len()
        invariant
            i <= ls@.len(),
            all == slices(ls@),
            texts(r@) == uris_in(all.take(i as int)),
        decreases ls@.len() - i,
    {
        let line = trim(ls[i]);
        let ghost before = texts(r@);
        proof {
            assert(all[i as int] == ls@[i as int]@);
            assert(all.take(i + 1).drop_last() =~= all.take(i as int));
            assert(all.take(i + 1).last() == all[i as int]);
        }
        if line.len() > 0 && line[0] != '#' {
            let said = string_of(line);
            r.push(said);
            assert(texts(r@) =~= before.push(line@));
        }
        i = i + 1;
    }
    assert(all.take(i as int) =~= all);
    r
}

/// What one flavour of clipboard text says about where a picture is.
pub open spec fn named_by(kind: Seq<char>, text: Seq<char>, on_disk: bool) -> Seq<Seq<char>> {
    if kind == "text/uri-list"@ {
        uris_in(lines_of(text))
    } else if kind == "text/html"@ {
        srcs_from(text, 0)
    } else if names_picture(text, on_disk) {
        seq![trim_of(text)]
    } else {
        seq![]
    }
}

/// What one flavour of clipboard text says about where a picture is. `on_disk` says whether the
/// text is the path of an image that is there.
pub fn named_in(kind: &str, text: &str, on_disk: bool) -> (r: Vec<String>)
    ensures
        texts(r@) == named_by(kind@, text@, on_disk),
{
    if same_text(kind, "text/uri-list") {
        let chars = chars_of(text);
        uri_list(chars.as_slice())
    } else if same_text(kind, "text/html") {
        img_srcs(text)
    } else {
        let mut r: Vec<String> = Vec::new();
        if let Some(line) = plain_named(text, on_disk) {
            r.push(line);
        }
        assert(texts(r@) =~= named_by(kind@, text@, on_disk));
        r
    }
}

/// What `base64` reads in a text with the standard alphabet: bytes, or what it says of the text.
pub uninterp spec fn unpacked(text: Seq<char>) -> Result<Seq<u8>, Seq<char>>;

/// `base64::Engine::decode` with the standard alphabet, or its error as text. What the text comes
/// to is left to the name.
#[verifier::external_body]
fn unpack(text: &str) -> (r: Result<Vec<u8>, String>)
    ensures
        match r {
            Ok(b) => unpacked(text@) == Ok::<Seq<u8>, Seq<char>>(b@),
            Err(e) => unpacked(text@) == Err::<Seq<u8>, Seq<char>>(e@),
        },
{
    base64::Engine::decode(&base64::engine::general_purpose::STANDARD, text)
        .map_err(|e| e.to_string())
}

/// A text without the white space in it.
pub open spec fn solid(s: Seq<char>) -> Seq<char>
    decreases s.len(),
{
    if s.len() == 0 {
        seq![]
    } else if is_white(s.last()) {
        solid(s.drop_last())
    } else {
        solid(s.drop_last()).push(s.last())
    }
}

fn squeeze(s: &[char]) -> (r: String)
    ensures
        r@ == solid(s@),
{
    let mut r = String::new();
    let mut i: usize = 0;
    assert(s@.take(0) =~= seq![]);
    assert(r@ =~= solid(s@.take(0)));
    while i < s.len()
        invariant
            i <= s@.len(),
            r@ == solid(s@.take(i as int)),
        decreases s@.len() - i,
    {
        assert(s@.take(i + 1).drop_last() =~= s@.take(i as int));
        if !is_space(s[i]) {
            r.push(s[i]);
        }
        i = i + 1;
    }
    assert(s@.take(i as int) =~= s@);
    r
}

/// Whether one of the fields before the comma of a `data:` URL says that it is base64.
pub open spec fn says_base64(meta: Seq<char>) -> bool {
    exists|i: int|
        0 <= i < split_on(meta, ';').len() && lower(#[trigger] split_on(meta, ';')[i]) == lower(
            "base64"@,
        )
}

/// What a `data:` URL holds, after its scheme.
pub open spec fn data_in(rest: Seq<char>) -> Result<Seq<u8>, Seq<char>> {
    let comma = position_of(rest, ',');
    if comma >= rest.len() {
        Err("that data: URL has no data in it"@)
    } else if !says_base64(rest.take(comma)) {
        Err("that data: URL is not base64, so it is not a picture"@)
    } else {
        match unpacked(solid(rest.skip(comma + 1))) {
            Ok(bytes) => Ok(bytes),
            Err(e) => Err("could not read that data: URL: "@ + e),
        }
    }
}

fn base64_said(meta: &[char]) -> (r: bool)
    ensures
        r == says_base64(meta@),
{
    let want_chars = chars_of("base64");
    let want = lowered(want_chars.as_slice());
    let ghost all = split_on(meta@, ';');
    let mut rest = meta;
    let ghost mut k: int = 0;
    assert(all.skip(0) =~= all);
    loop
        invariant
            want@ == lower("base64"@),
            all == split_on(meta@, ';'),
            0 <= k <= all.len(),
            all.skip(k) == split_on(rest@, ';'),
            forall|j: int| 0 <= j < k ==> lower(#[trigger] all[j]) != lower("base64"@),
        decreases rest@.len(),
    {
        let i = position(rest, ';');
        let head = slice_subrange(rest, 0, i);
        let small = lowered(head);
        proof {
            assert(all.skip(k).len() > 0);
            assert(head@ =~= rest@.take(i as int));
            assert(all.skip(k)[0] == all[k]);
            if i >= rest@.len() {
                assert(head@ =~= rest@);
            }
            assert(split_on(rest@, ';')[0] == head@);
        }
        if crate::text::same_chars(small.as_slice(), want.as_slice()) {
            assert(lower(all[k]) == lower("base64"@));
            return true;
        }
        if i >= rest.len() {
            assert(all.skip(k) =~= seq![rest@]);
            assert(all.len() == k + 1);
            return false;
        }
        let tail = slice_subrange(rest, i + 1, rest.len());
        proof {
            assert(tail@ =~= rest@.skip(i + 1));
            assert(all.skip(k) == seq![head@] + split_on(tail@, ';'));
            assert(all.skip(k + 1) =~= all.skip(k).skip(1));
            assert((seq![head@] + split_on(tail@, ';')).skip(1) =~= split_on(tail@, ';'));
            k = k + 1;
        }
        rest = tail;
    }
}

/// `image/png;base64,iVBOR...`: a picture that is *in* the clipboard rather than named by it.
///
/// No network is involved and the bytes still have to earn their type: the `image/png` in the URL is
/// what somebody wrote, not what they encoded.
pub fn data_url(rest: &[char]) -> (r: Result<Vec<u8>, String>)
    ensures
        match r {
            Ok(b) => data_in(rest@) == Ok::<Seq<u8>, Seq<char>>(b@),
            Err(e) => data_in(rest@) == Err::<Seq<u8>, Seq<char>>(e@),
        },
{
    let comma = position(rest, ',');
    if comma >= rest.len() {
        return Err("that data: URL has no data in it".to_owned());
    }
    let meta = slice_subrange(rest, 0, comma);
    assert(meta@ =~= rest@.take(comma as int));
    if !base64_said(meta) {
        return Err("that data: URL is not base64, so it is not a picture".to_owned());
    }
    // White space is how a long one survives being wrapped, and is not part of the payload.
    let payload = slice_subrange(rest, comma + 1, rest.len());
    assert(payload@ =~= rest@.skip(comma + 1));
    let packed = squeeze(payload);
    match unpack(packed.as_str()) {
        Ok(bytes) => Ok(bytes),
        Err(e) => Err(crate::words::concat("could not read that data: URL: ", e.as_str())),
    }
}

/// Where a thing that the clipboard named turns out to be.
pub enum Named {
    /// In the name itself.
    Here(Result<Vec<u8>, String>),
    /// A file.
    File(String),
    /// On somebody else's server.
    Remote(String),
}

/// A thing the clipboard named: a picture it holds, a file that is there, a page's address, or
/// nothing. `file` is the path it is, where there is an image there.
///
/// Nothing is "that was not a picture": the next candidate gets its turn.
pub fn resolve(named: &str, file: Option<String>) -> (r: Option<Named>)
    ensures
        match past(named@, "data:"@) {
            Some(rest) => r is Some && r->0 is Here && (match r->0->Here_0 {
                Ok(b) => data_in(rest) == Ok::<Seq<u8>, Seq<char>>(b@),
                Err(e) => data_in(rest) == Err::<Seq<u8>, Seq<char>>(e@),
            }),
            None => match file {
                Some(path) => r == Some(Named::File(path)),
                None => match link_of(named@) {
                    Ok(l) => if is_web(l.scheme) {
                        r is Some && r->0 is Remote && r->0->Remote_0@ == l.text
                    } else {
                        r is None
                    },
                    Err(_) => r is None,
                },
            },
        },
{
    let chars = chars_of(named);
    if let Some(rest) = strip_lead(chars.as_slice(), "data:") {
        return Some(Named::Here(data_url(rest)));
    }
    if let Some(path) = file {
        return Some(Named::File(path));
    }
    match read_link(named) {
        Ok(l) => if web(l.scheme.as_str()) {
            Some(Named::Remote(l.text))
        } else {
            None
        },
        Err(_) => None,
    }
}

/// What to fetch a picture from: the address as it is written once it has been read, and whose
/// server that is. Anything that is not a page's address is refused.
pub fn fetchable(url: &str) -> (r: Result<(String, String), String>)
    ensures
        match link_of(url@) {
            Err(e) => r is Err && r->Err_0@ == url@ + ": "@ + e,
            Ok(l) => if is_web(l.scheme) {
                r is Ok && r->Ok_0.0@ == l.text && r->Ok_0.1@ == (match l.host {
                    Some(h) => h,
                    None => url@,
                })
            } else {
                r is Err && r->Err_0@ == l.scheme + ": not a thing to fetch"@
            },
        },
{
    match read_link(url) {
        Err(e) => {
            let mut said = url.to_owned();
            said.push_str(": ");
            said.push_str(e.as_str());
            Err(said)
        },
        Ok(l) => if web(l.scheme.as_str()) {
            let host = match l.host {
                Some(h) => h,
                None => url.to_owned(),
            };
            Ok((l.text, host))
        } else {
            Err(crate::words::concat(l.scheme.as_str(), ": not a thing to fetch"))
        },
    }
}

} // verus!
