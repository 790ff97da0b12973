//! Sniff, shrink if it is worth shrinking, and say where it goes.

use crate::images::{human, kind_of, kind_said, size_said, sniff, sniffed, Attachment, MAX_BYTES, MAX_EDGE};
use crate::paths::{join, under};
use crate::words::past;
use vstd::prelude::*;

verus! {

/// How large the picture is that `image` reads in some bytes, or what it says when it cannot.
pub uninterp spec fn picture_size(bytes: Seq<u8>) -> Result<(u32, u32), Seq<char>>;

/// `image::load_from_memory` and the dimensions of what it read, or its error as text. Which bytes
/// it can read is left to the name.
#[verifier::external_body]
fn measure(bytes: &[u8]) -> (r: Result<(u32, u32), String>)
    ensures
        match r {
            Ok(size) => picture_size(bytes@) == Ok::<(u32, u32), Seq<char>>(size),
            Err(e) => picture_size(bytes@) == Err::<(u32, u32), Seq<char>>(e@),
        },
{
    let decoded = image::load_from_memory(bytes).map_err(|e| e.to_string())?;
    Ok(image::GenericImageView::dimensions(&decoded))
}

/// A picture in a form that can be sent.
pub struct Encoded {
    pub bytes: Vec<u8>,
    pub width: u32,
    pub height: u32,
}

/// A picture in a form that can be sent, as plain values.
pub struct Sendable {
    pub bytes: Seq<u8>,
    pub width: u32,
    pub height: u32,
}

impl View for Encoded {
    type V = Sendable;

    open spec fn view(&self) -> Sendable {
        Sendable { bytes: self.bytes@, width: self.width, height: self.height }
    }
}

/// Whether a picture of some size has pixels, and none outside [`MAX_EDGE`] either way.
pub open spec fn is_moderate(width: u32, height: u32) -> bool {
    0 < width <= MAX_EDGE && 0 < height <= MAX_EDGE
}

/// What `image` says when it cannot write the picture in some bytes as PNG, at its own size.
pub uninterp spec fn png_error(bytes: Seq<u8>) -> Option<Seq<char>>;

/// What `image` says when it cannot write the picture in some bytes as PNG, brought down to an edge.
pub uninterp spec fn smaller_png_error(bytes: Seq<u8>, edge: u32) -> Option<Seq<char>>;

/// What `image` says when it cannot write the picture in some bytes as JPEG.
pub uninterp spec fn jpeg_error(bytes: Seq<u8>) -> Option<Seq<char>>;

/// Whether `coded` is the picture in `bytes` written in the format that goes by `media_type`: its
/// bytes open as that format does, and `image` reads the same size out of them again.
pub open spec fn is_coded(bytes: Seq<u8>, coded: Seq<u8>, media_type: &'static str) -> bool {
    &&& sniffed(coded) == Some(media_type)
    &&& match picture_size(bytes) {
        Ok((w, h)) => is_moderate(w, h) ==> picture_size(coded) == picture_size(bytes),
        Err(_) => true,
    }
}

/// Whether the size (`w2`, `h2`) is the one that fits a picture of (`w`, `h`) into a square of
/// `edge`: the longer side as long as the edge, and the other in proportion, rounded to the nearest
/// pixel and never less than one.
pub open spec fn is_fitted(w: u32, h: u32, edge: u32, w2: u32, h2: u32) -> bool {
    &&& 0 < w2 <= edge
    &&& 0 < h2 <= edge
    &&& w >= h ==> w2 == edge && is_in_proportion(w as int, h as int, edge as int, h2 as int)
    &&& h >= w ==> h2 == edge && is_in_proportion(h as int, w as int, edge as int, w2 as int)
}

/// Whether `got` is `short * edge / long`, to within half a pixel, or a single pixel because it
/// would be less.
pub open spec fn is_in_proportion(long: int, short: int, edge: int, got: int) -> bool {
    let off = 2 * (got * long - short * edge);
    -long <= off <= long || (got == 1 && off > 0)
}

/// `image::DynamicImage::write_to` as PNG, of the picture that some bytes hold. What comes out opens
/// with the PNG signature and is read back at the size it was written at. Which error comes out, if
/// one does, is left to the name; which bytes do is left unsaid, since a decoder picks its arithmetic
/// by what the processor offers.
#[verifier::external_body]
fn as_png(bytes: &[u8]) -> (r: Result<Vec<u8>, String>)
    ensures
        match r {
            Ok(b) => png_error(bytes@) is None && is_coded(bytes@, b@, "image/png"),
            Err(e) => png_error(bytes@) == Some(e@),
        },
{
    let decoded = image::load_from_memory(bytes).map_err(|e| e.to_string())?;
    let mut out = Vec::new();
    decoded
        .write_to(&mut std::io::Cursor::new(&mut out), image::ImageFormat::Png)
        .map_err(|e| e.to_string())?;
    Ok(out)
}

/// `image::DynamicImage::resize` with the Lanczos filter, of the picture that some bytes hold, and
/// the result as PNG. Its size is what [`is_fitted`] says, and what comes out opens with the PNG
/// signature and is read back at that size. Which error comes out, if one does, is left to the name;
/// which bytes do is left unsaid: the filter goes through the sine that the platform has.
#[verifier::external_body]
fn as_smaller_png(bytes: &[u8], edge: u32) -> (r: Result<Encoded, String>)
    requires
        0 < edge <= MAX_EDGE,
        match picture_size(bytes@) {
            Ok((w, h)) => w > edge || h > edge,
            Err(_) => false,
        },
    ensures
        match r {
            Ok(small) => {
                let size = picture_size(bytes@)->Ok_0;
                &&& smaller_png_error(bytes@, edge) is None
                &&& is_fitted(size.0, size.1, edge, small.width, small.height)
                &&& sniffed(small.bytes@) == Some("image/png")
                &&& picture_size(small.bytes@) == Ok::<(u32, u32), Seq<char>>(
                    (small.width, small.height),
                )
            },
            Err(e) => smaller_png_error(bytes@, edge) == Some(e@),
        },
{
    let decoded = image::load_from_memory(bytes).map_err(|e| e.to_string())?;
    let small = decoded.resize(edge, edge, image::imageops::FilterType::Lanczos3);
    let (width, height) = image::GenericImageView::dimensions(&small);
    let mut out = Vec::new();
    small
        .write_to(&mut std::io::Cursor::new(&mut out), image::ImageFormat::Png)
        .map_err(|e| e.to_string())?;
    Ok(Encoded { bytes: out, width, height })
}

/// `image::DynamicImage::write_to` as JPEG, of the picture that some bytes hold. Through RGB, which
/// drops the alpha that JPEG has no room for. What comes out opens with the JPEG marker and is read
/// back at the size it was written at. Which error comes out, if one does, is left to the name; which
/// bytes do is left unsaid, for the same reason.
#[verifier::external_body]
fn as_jpeg(bytes: &[u8]) -> (r: Result<Vec<u8>, String>)
    ensures
        match r {
            Ok(b) => jpeg_error(bytes@) is None && is_coded(bytes@, b@, "image/jpeg"),
            Err(e) => jpeg_error(bytes@) == Some(e@),
        },
{
    let decoded = image::load_from_memory(bytes).map_err(|e| e.to_string())?;
    let mut out = Vec::new();
    image::DynamicImage::ImageRgb8(decoded.to_rgb8())
        .write_to(&mut std::io::Cursor::new(&mut out), image::ImageFormat::Jpeg)
        .map_err(|e| e.to_string())?;
    Ok(out)
}

/// A hex digit or a hyphen.
pub open spec fn is_id_char(c: char) -> bool {
    '0' <= c <= '9' || 'a' <= c <= 'f' || 'A' <= c <= 'F' || c == '-'
}

/// A name that nobody chose: thirty-six hex digits and hyphens.
pub open spec fn is_id(s: Seq<char>) -> bool {
    s.len() == 36 && forall|i: int| 0 <= i < s.len() ==> is_id_char(#[trigger] s[i])
}

/// `uuid::Uuid::new_v4` in its hyphenated form: thirty-six characters, each a hex digit or a
/// hyphen. Which ones is chance.
#[verifier::external_body]
fn fresh_id() -> (r: String)
    ensures
        is_id(r@),
{
    uuid::Uuid::new_v4().to_string()
}

/// Whether a picture is sent as it is: it is of a kind to send, and small enough already.
/// Re-encoding costs sharpness on exactly the kind of image people paste.
pub open spec fn goes_untouched(bytes: Seq<u8>, width: u32, height: u32) -> bool {
    sniffed(bytes) is Some && width <= MAX_EDGE && height <= MAX_EDGE && bytes.len() <= MAX_BYTES
}

/// The extension that goes with a media type.
pub open spec fn extension_for(media_type: Seq<char>) -> Seq<char> {
    match past(media_type, "image/"@) {
        Some(ext) => ext,
        None => "png"@,
    }
}

/// The place in `store` for a picture of this kind that goes by `id`.
pub open spec fn place_for(store: Seq<char>, media_type: Seq<char>, id: Seq<char>) -> Seq<char> {
    under(store, id + "."@ + extension_for(media_type))
}

/// Whether `p` is a place of its own in `store` for a picture of this kind.
pub open spec fn is_place(store: Seq<char>, media_type: Seq<char>, p: Seq<char>) -> bool {
    exists|id: Seq<char>| is_id(id) && p == #[trigger] place_for(store, media_type, id)
}

/// What to say of bytes that cannot be read as a picture.
pub open spec fn unreadable(bytes: Seq<u8>, error: Seq<char>) -> Seq<char> {
    match sniffed(bytes) {
        Some(kind) => "could not read the "@ + kind_said(kind@) + ": "@ + error,
        None => "that is not an image of a kind any model here can read"@,
    }
}

/// Whether this is what writing the picture in `bytes` as JPEG can come to.
pub open spec fn is_jpeg(bytes: Seq<u8>, jpeg: Result<Seq<u8>, Seq<char>>) -> bool {
    match jpeg {
        Ok(j) => jpeg_error(bytes) is None && is_coded(bytes, j, "image/jpeg"),
        Err(e) => jpeg_error(bytes) == Some(e),
    }
}

/// What came of writing a picture, as plain values.
pub open spec fn plainly(r: Result<Vec<u8>, String>) -> Result<Seq<u8>, Seq<char>> {
    match r {
        Ok(b) => Ok(b@),
        Err(e) => Err(e@),
    }
}

/// Whether `r` is what is sent of a picture that was encoded as PNG: that where it fits, and a JPEG
/// of it where it does not.
pub open spec fn is_sent(
    png: Result<Sendable, Seq<char>>,
    r: Result<(Sendable, &'static str), Seq<char>>,
) -> bool {
    match png {
        Err(e) => r == Err::<(Sendable, &'static str), Seq<char>>(
            "could not re-encode the image: "@ + e,
        ),
        Ok(p) => if p.bytes.len() <= MAX_BYTES {
            r == Ok::<(Sendable, &'static str), Seq<char>>((p, "image/png"))
        } else {
            exists|jpeg: Result<Seq<u8>, Seq<char>>| #[trigger]
                is_jpeg(p.bytes, jpeg) && r == (match jpeg {
                    Ok(j) => Ok::<(Sendable, &'static str), Seq<char>>(
                        (Sendable { bytes: j, ..p }, "image/jpeg"),
                    ),
                    Err(e) => Err("could not re-encode the image: "@ + e),
                })
        },
    }
}

/// What came of encoding a picture as PNG, as plain values.
pub open spec fn tried(r: Result<Encoded, String>) -> Result<Sendable, Seq<char>> {
    match r {
        Ok(e) => Ok(e@),
        Err(e) => Err(e@),
    }
}

/// What is sent of a picture, as plain values.
pub open spec fn sending(r: Result<(Encoded, &'static str), String>) -> Result<
    (Sendable, &'static str),
    Seq<char>,
> {
    match r {
        Ok((e, media)) => Ok((e@, media)),
        Err(e) => Err(e@),
    }
}

/// What is sent of a picture that was encoded as PNG. A screenshot of text is where every JPEG
/// artefact lands on a letter, so PNG comes first; JPEG comes when PNG will not fit, because refusing
/// a picture somebody just copied over the encoding it happened to arrive in is the worse of the two
/// answers.
pub fn sendable(png: Result<Encoded, String>) -> (r: Result<(Encoded, &'static str), String>)
    ensures
        is_sent(tried(png), sending(r)),
{
    match png {
        Err(e) => Err(crate::words::concat("could not re-encode the image: ", e.as_str())),
        Ok(p) => {
            if p.bytes.len() <= MAX_BYTES {
                return Ok((p, "image/png"));
            }
            let jpeg = as_jpeg(p.bytes.as_slice());
            assert(is_jpeg(p.bytes@, plainly(jpeg)));
            match jpeg {
                Ok(jpeg) => Ok(
                    (Encoded { bytes: jpeg, width: p.width, height: p.height }, "image/jpeg"),
                ),
                Err(e) => Err(crate::words::concat("could not re-encode the image: ", e.as_str())),
            }
        },
    }
}

/// Whether this is what writing a picture of some size as PNG can come to, where it is to be within
/// [`MAX_EDGE`]: at its own size where it is already, and fitted into that where it is not.
pub open spec fn is_png(
    bytes: Seq<u8>,
    width: u32,
    height: u32,
    png: Result<Sendable, Seq<char>>,
) -> bool {
    if width <= MAX_EDGE && height <= MAX_EDGE {
        match png {
            Ok(p) => {
                &&& png_error(bytes) is None
                &&& (p.width, p.height) == (width, height)
                &&& is_coded(bytes, p.bytes, "image/png")
            },
            Err(e) => png_error(bytes) == Some(e),
        }
    } else {
        match png {
            Ok(p) => {
                &&& smaller_png_error(bytes, MAX_EDGE) is None
                &&& is_fitted(width, height, MAX_EDGE, p.width, p.height)
                &&& sniffed(p.bytes) == Some("image/png")
                &&& picture_size(p.bytes) == Ok::<(u32, u32), Seq<char>>((p.width, p.height))
            },
            Err(e) => smaller_png_error(bytes, MAX_EDGE) == Some(e),
        }
    }
}

/// Whether this is what is sent of a picture of some size that does not go as it is.
pub open spec fn is_shrunk(
    bytes: Seq<u8>,
    width: u32,
    height: u32,
    r: Result<(Sendable, &'static str), Seq<char>>,
) -> bool {
    exists|png: Result<Sendable, Seq<char>>| #[trigger]
        is_png(bytes, width, height, png) && is_sent(png, r)
}

/// Bring a picture down to something worth sending: inside [`MAX_EDGE`] and in a format a provider
/// accepts.
pub fn shrunk(bytes: &[u8], width: u32, height: u32) -> (r: Result<(Encoded, &'static str), String>)
    requires
        picture_size(bytes@) == Ok::<(u32, u32), Seq<char>>((width, height)),
    ensures
        is_shrunk(bytes@, width, height, sending(r)),
{
    // Resizing fits *within* the bounds either way, so an image already inside them would be
    // scaled up by it. Nothing here ever adds pixels.
    let png = if width > MAX_EDGE || height > MAX_EDGE {
        as_smaller_png(bytes, MAX_EDGE)
    } else {
        match as_png(bytes) {
            Ok(b) => Ok(Encoded { bytes: b, width, height }),
            Err(e) => Err(e),
        }
    };
    assert(is_png(bytes@, width, height, tried(png)));
    sendable(png)
}

/// What keeping a picture says: refused if it is still more than a turn can carry, and otherwise
/// the attachment and the bytes that go where it says.
pub fn settle(store: &str, id: &str, encoded: Encoded, media_type: &str) -> (r: Result<
    (Attachment, Vec<u8>),
    String,
>)
    requires
        is_id(id@),
    ensures
        if encoded.bytes@.len() > MAX_BYTES {
            r is Err && r->Err_0@ == too_much(encoded.bytes@.len())
        } else {
            &&& r is Ok
            &&& r->Ok_0.1@ == encoded.bytes@
            &&& r->Ok_0.0.bytes == encoded.bytes@.len()
            &&& r->Ok_0.0.media_type@ == media_type@
            &&& r->Ok_0.0.width == encoded.width
            &&& r->Ok_0.0.height == encoded.height
            &&& r->Ok_0.0.path@ == place_for(store@, media_type@, id@)
        },
{
    let n = encoded.bytes.len();
    if n > MAX_BYTES {
        let mut said = "that image is ".to_owned();
        said.push_str(human(n).as_str());
        said.push_str(" \u{2014} more than a turn can carry");
        return Err(said);
    }
    let chars = crate::text::chars_of(media_type);
    let ext = match crate::words::strip_lead(chars.as_slice(), "image/") {
        Some(ext) => crate::text::string_of(ext),
        None => "png".to_owned(),
    };
    let mut name = id.to_owned();
    name.push_str(".");
    name.push_str(ext.as_str());
    Ok(
        (
            Attachment {
                path: join(store, name.as_str()),
                media_type: media_type.to_owned(),
                width: encoded.width,
                height: encoded.height,
                bytes: n,
            },
            encoded.bytes,
        ),
    )
}

/// What is kept of a picture of some size: itself where it goes untouched, and what is sent of it
/// where not.
pub open spec fn is_kept(
    bytes: Seq<u8>,
    width: u32,
    height: u32,
    r: Result<(Sendable, &'static str), Seq<char>>,
) -> bool {
    if goes_untouched(bytes, width, height) {
        r == Ok::<(Sendable, &'static str), Seq<char>>(
            (Sendable { bytes, width, height }, sniffed(bytes)->0),
        )
    } else {
        is_shrunk(bytes, width, height, r)
    }
}

/// What is said of a picture that is still more than a turn can carry.
pub open spec fn too_much(n: nat) -> Seq<char> {
    "that image is "@ + size_said(n) + " \u{2014} more than a turn can carry"@
}

/// Whether this is what keeping a picture says: refused where it is still more than a turn can
/// carry, and otherwise the attachment, at a place of its own, and the bytes that go there.
pub open spec fn settles(
    store: Seq<char>,
    found: Result<(Sendable, &'static str), Seq<char>>,
    r: Result<(Attachment, Vec<u8>), String>,
) -> bool {
    match found {
        Err(e) => r is Err && r->Err_0@ == e,
        Ok((p, media)) => if p.bytes.len() > MAX_BYTES {
            r is Err && r->Err_0@ == too_much(p.bytes.len())
        } else {
            match r {
                Ok((a, kept)) => {
                    &&& kept@ == p.bytes
                    &&& a.bytes == p.bytes.len()
                    &&& a.width == p.width
                    &&& a.height == p.height
                    &&& a.media_type@ == media@
                    &&& is_place(store, media@, a.path@)
                },
                Err(_) => false,
            }
        },
    }
}

/// Sniff, shrink if it is worth shrinking, and say where it goes. The bytes that come back belong
/// at the attachment's path.
pub fn keep(store: &str, bytes: Vec<u8>) -> (r: Result<(Attachment, Vec<u8>), String>)
    ensures
        match picture_size(bytes@) {
            Err(e) => r is Err && r->Err_0@ == unreadable(bytes@, e),
            Ok(size) => exists|found: Result<(Sendable, &'static str), Seq<char>>|
                #[trigger] is_kept(bytes@, size.0, size.1, found) && settles(store@, found, r),
        },
{
    // What a provider will take, if anything. Nothing here is not the end of it: a BMP off an X11
    // clipboard is a picture nobody can send and everybody can open.
    let sendable_kind = sniff(bytes.as_slice());
    let (w, h) = match measure(bytes.as_slice()) {
        Ok(size) => size,
        Err(e) => {
            return Err(
                match sendable_kind {
                    Some(kind) => {
                        let mut said = "could not read the ".to_owned();
                        said.push_str(kind_of(kind).as_str());
                        said.push_str(": ");
                        said.push_str(e.as_str());
                        said
                    },
                    None => "that is not an image of a kind any model here can read".to_owned(),
                },
            );
        },
    };
    let id = fresh_id();
    let ghost given = bytes@;
    let ghost size = picture_size(given)->Ok_0;
    assert(picture_size(given) == Ok::<(u32, u32), Seq<char>>((w, h)));
    if let Some(kind) = sendable_kind {
        if w <= MAX_EDGE && h <= MAX_EDGE && bytes.len() <= MAX_BYTES {
            let e = Encoded { bytes, width: w, height: h };
            let ghost found = Ok::<(Sendable, &'static str), Seq<char>>((e@, kind));
            let r = settle(store, id.as_str(), e, kind);
            proof {
                assert(is_kept(given, size.0, size.1, found));
                assert(r is Ok);
                assert(r->Ok_0.0.path@ == place_for(store@, kind@, id@));
                assert(settles(store@, found, r));
            }
            return r;
        }
    }
    let sent = shrunk(bytes.as_slice(), w, h);
    let ghost found = sending(sent);
    assert(is_kept(given, size.0, size.1, found));
    match sent {
        Ok((e, media)) => {
            let r = settle(store, id.as_str(), e, media);
            proof {
                if r is Ok {
                    assert(r->Ok_0.0.path@ == place_for(store@, media@, id@));
                }
                assert(settles(store@, found, r));
            }
            r
        },
        Err(said) => {
            let r: Result<(Attachment, Vec<u8>), String> = Err(said);
            assert(settles(store@, found, r));
            r
        },
    }
}

/// Whatever is kept of a picture is within what a turn can carry, is of the kind and the size that it
/// says, and is in proportion: a picture within [`MAX_EDGE`] keeps its size, and a larger one has its
/// longer side brought down to exactly that.
pub proof fn what_is_kept_can_be_sent(
    store: Seq<char>,
    bytes: Seq<u8>,
    width: u32,
    height: u32,
    found: Result<(Sendable, &'static str), Seq<char>>,
    r: Result<(Attachment, Vec<u8>), String>,
)
    requires
        picture_size(bytes) == Ok::<(u32, u32), Seq<char>>((width, height)),
        width > 0,
        height > 0,
        is_kept(bytes, width, height, found),
        settles(store, found, r),
        r is Ok,
    ensures
        r->Ok_0.1@.len() <= MAX_BYTES,
        is_moderate(r->Ok_0.0.width, r->Ok_0.0.height),
        sniffed(r->Ok_0.1@) is Some,
        r->Ok_0.0.media_type@ == sniffed(r->Ok_0.1@)->0@,
        picture_size(r->Ok_0.1@) == Ok::<(u32, u32), Seq<char>>(
            (r->Ok_0.0.width, r->Ok_0.0.height),
        ),
        width <= MAX_EDGE && height <= MAX_EDGE ==> r->Ok_0.0.width == width && r->Ok_0.0.height
            == height,
        width > MAX_EDGE || height > MAX_EDGE ==> is_fitted(
            width,
            height,
            MAX_EDGE,
            r->Ok_0.0.width,
            r->Ok_0.0.height,
        ),
{
}

} // verus!
