//! Getting a picture out of the machine and into a message.
//!
//! Three ways in: the clipboard, which is where a screenshot is; a path that was pasted, which is
//! what dragging a file onto a terminal does; and a plugin, through the same path. Whatever the way,
//! the bytes are sniffed rather than trusted, shrunk if they are enormous, and kept under a name of
//! the workspace's own.

use crate::text::{decimal, decimal_of};
use crate::words::{past, strip_lead};
use vstd::prelude::*;

pub mod clipboard;
pub mod hunting;
pub mod keeping;
pub mod hearing;
pub mod naming;
pub mod pasting;
pub mod telling;

verus! {

/// The long edge past which no provider keeps the extra pixels.
pub const MAX_EDGE: u32 = 1568;

/// The most that will be pulled off a server for one picture: a stop on a link that turns out to
/// point at a disc image.
pub const MAX_FETCH: u64 = 25_000_000;

/// How many seconds somebody else's server gets.
pub const FETCH_TIMEOUT_SECS: u64 = 20;

/// What a request will carry: the guard against somebody pasting a RAW file, not a budget.
pub const MAX_BYTES: usize = 3_500_000;

/// An image the composer is holding, or a message is carrying.
#[derive(Debug, Clone, PartialEq, Eq)]
pub struct Attachment {
    /// Where the bytes are, in the workspace's directory.
    pub path: String,
    /// What they are, read off the bytes.
    pub media_type: String,
    /// For the chip. What is worth knowing about an attachment you cannot see is how big it is.
    pub width: u32,
    pub height: u32,
    pub bytes: usize,
}

/// The part of a media type that a person would say.
pub open spec fn kind_said(media_type: Seq<char>) -> Seq<char> {
    match past(media_type, "image/"@) {
        Some(kind) => kind,
        None => media_type,
    }
}

/// The part of a media type that a person would say.
pub fn kind_of(media_type: &str) -> (r: String)
    ensures
        r@ == kind_said(media_type@),
{
    let chars = crate::text::chars_of(media_type);
    match strip_lead(chars.as_slice(), "image/") {
        Some(kind) => crate::text::string_of(kind),
        None => media_type.to_owned(),
    }
}

impl Attachment {
    /// What the chip says.
    pub open spec fn labelled(self) -> Seq<char> {
        kind_said(self.media_type@) + " "@ + decimal(self.width as nat) + "\u{d7}"@ + decimal(
            self.height as nat,
        ) + " \u{b7} "@ + size_said(self.bytes as nat)
    }

    /// What the chip says: `png 1920×1080 · 412 KB`.
    pub fn label(&self) -> (r: String)
        ensures
            r@ == self.labelled(),
    {
        let mut r = kind_of(self.media_type.as_str());
        r.push_str(" ");
        r.push_str(decimal_of(self.width as u64).as_str());
        r.push_str("\u{d7}");
        r.push_str(decimal_of(self.height as u64).as_str());
        r.push_str(" \u{b7} ");
        r.push_str(human(self.bytes).as_str());
        r
    }
}

/// So many bytes in tenths of a mebibyte, to the nearest, and to the even one of two as near.
pub open spec fn tenths(bytes: nat) -> nat {
    let q = bytes * 10 / 1048576;
    let r = bytes * 10 % 1048576;
    if r > 524288 || (r == 524288 && q % 2 == 1) {
        q + 1
    } else {
        q
    }
}

/// A size the way a person would say it.
pub open spec fn size_said(bytes: nat) -> Seq<char> {
    if bytes >= 1048576 {
        decimal(tenths(bytes) / 10) + "."@ + decimal(tenths(bytes) % 10) + " MB"@
    } else if bytes >= 1024 {
        decimal(bytes / 1024) + " KB"@
    } else {
        decimal(bytes) + " B"@
    }
}

/// A size the way a person would say it.
pub fn human(bytes: usize) -> (r: String)
    ensures
        r@ == size_said(bytes as nat),
{
    if bytes >= 1048576 {
        let scaled: u128 = bytes as u128 * 10;
        let q: u64 = (scaled / 1048576) as u64;
        let rest: u64 = (scaled % 1048576) as u64;
        let t = if rest > 524288 || (rest == 524288 && q % 2 == 1) {
            q + 1
        } else {
            q
        };
        let mut r = decimal_of(t / 10);
        r.push_str(".");
        r.push_str(decimal_of(t % 10).as_str());
        r.push_str(" MB");
        r
    } else if bytes >= 1024 {
        let mut r = decimal_of((bytes / 1024) as u64);
        r.push_str(" KB");
        r
    } else {
        let mut r = decimal_of(bytes as u64);
        r.push_str(" B");
        r
    }
}

/// Whether some bytes begin with others.
pub open spec fn opens_with(bytes: Seq<u8>, lead: Seq<u8>) -> bool {
    lead.len() <= bytes.len() && bytes.take(lead.len() as int) == lead
}

/// What the bytes are, from the bytes. Only the four types that every provider accepts.
pub open spec fn sniffed(bytes: Seq<u8>) -> Option<&'static str> {
    if opens_with(bytes, seq![0x89u8, 0x50, 0x4e, 0x47, 0x0d, 0x0a, 0x1a, 0x0a]) {
        Some("image/png")
    } else if opens_with(bytes, seq![0xffu8, 0xd8, 0xff]) {
        Some("image/jpeg")
    } else if opens_with(bytes, seq![0x47u8, 0x49, 0x46, 0x38, 0x37, 0x61]) || opens_with(
        bytes,
        seq![0x47u8, 0x49, 0x46, 0x38, 0x39, 0x61],
    ) {
        Some("image/gif")
    } else if bytes.len() > 12 && opens_with(bytes, seq![0x52u8, 0x49, 0x46, 0x46]) && opens_with(
        bytes.skip(8),
        seq![0x57u8, 0x45, 0x42, 0x50],
    ) {
        Some("image/webp")
    } else {
        None
    }
}

fn stands(bytes: &[u8], at: usize, lead: &[u8]) -> (r: bool)
    requires
        at <= bytes@.len(),
    ensures
        r == opens_with(bytes@.skip(at as int), lead@),
{
    let total = bytes.len();
    if lead.len() > total - at {
        return false;
    }
    let ghost want = bytes@.skip(at as int).take(lead@.len() as int);
    let mut i: usize = 0;
    while i < lead.len()
        invariant
            i <= lead@.len(),
            total == bytes@.len(),
            at + lead@.len() <= total,
            want == bytes@.skip(at as int).take(lead@.len() as int),
            forall|j: int| 0 <= j < i ==> want[j] == #[trigger] lead@[j],
        decreases lead@.len() - i,
    {
        if bytes[at + i] != lead[i] {
            assert(want[i as int] != lead@[i as int]);
            return false;
        }
        i = i + 1;
    }
    assert(want =~= lead@);
    true
}

/// What the bytes are, from the bytes.
///
/// Only the four types every provider accepts. Anything else is not an image as far as this is
/// concerned, and saying so here is what stops it becoming a turn that fails on the wire with
/// somebody else's error message.
pub fn sniff(bytes: &[u8]) -> (r: Option<&'static str>)
    ensures
        r == sniffed(bytes@),
{
    assert(bytes@.skip(0) =~= bytes@);
    let png: [u8; 8] = [0x89, 0x50, 0x4e, 0x47, 0x0d, 0x0a, 0x1a, 0x0a];
    assert(png@ =~= seq![0x89u8, 0x50, 0x4e, 0x47, 0x0d, 0x0a, 0x1a, 0x0a]);
    if stands(bytes, 0, png.as_slice()) {
        return Some("image/png");
    }
    let jpeg: [u8; 3] = [0xff, 0xd8, 0xff];
    assert(jpeg@ =~= seq![0xffu8, 0xd8, 0xff]);
    if stands(bytes, 0, jpeg.as_slice()) {
        return Some("image/jpeg");
    }
    let old_gif: [u8; 6] = [0x47, 0x49, 0x46, 0x38, 0x37, 0x61];
    let new_gif: [u8; 6] = [0x47, 0x49, 0x46, 0x38, 0x39, 0x61];
    assert(old_gif@ =~= seq![0x47u8, 0x49, 0x46, 0x38, 0x37, 0x61]);
    assert(new_gif@ =~= seq![0x47u8, 0x49, 0x46, 0x38, 0x39, 0x61]);
    if stands(bytes, 0, old_gif.as_slice()) || stands(bytes, 0, new_gif.as_slice()) {
        return Some("image/gif");
    }
    let riff: [u8; 4] = [0x52, 0x49, 0x46, 0x46];
    let webp: [u8; 4] = [0x57, 0x45, 0x42, 0x50];
    assert(riff@ =~= seq![0x52u8, 0x49, 0x46, 0x46]);
    assert(webp@ =~= seq![0x57u8, 0x45, 0x42, 0x50]);
    if bytes.len() > 12 && stands(bytes, 0, riff.as_slice()) && stands(bytes, 8, webp.as_slice()) {
        return Some("image/webp");
    }
    None
}

/// What the clipboard turned out to be holding.
///
/// Two answers rather than one, because they cost different things. Bytes are here already and
/// become an attachment in the same breath. A *reference* is a network round trip, and the loop
/// that draws the screen is not where a network round trip goes.
#[derive(Debug)]
pub enum Clipped {
    /// A picture, kept: the attachment, and the bytes that go where it says.
    Image(Attachment, Vec<u8>),
    /// A picture on somebody else's server.
    Remote(String),
}

} // verus!
