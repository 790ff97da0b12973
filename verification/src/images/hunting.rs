//! The whole of a paste: what is looked for, in which order, and what is made of a picture that has
//! to be fetched.

use crate::images::clipboard::{picture_among, trouble_said, Offer, Platform, Trouble};
use crate::images::naming::{named_by, named_in};
use crate::images::{human, size_said, Clipped, MAX_FETCH};
use crate::notify::quoting::Command;
use crate::text::texts;
use vstd::prelude::*;

verus! {

// ---- the order --------------------------------------------------------------

/// What a thing that was looked at came to: not a picture, or what became of one.
pub type Found = Option<Result<Clipped, String>>;

/// The first of some things that is a picture.
pub open spec fn first_found(v: Seq<Found>) -> Found
    decreases v.len(),
{
    if v.len() == 0 {
        None
    } else if v[0] is Some {
        v[0]
    } else {
        first_found(v.skip(1))
    }
}

/// Take whatever image the system clipboard is holding, or the one it is pointing at: the picture
/// itself where it holds one, then whatever it names, in the order that is trusted. Where there is
/// none, what went wrong on the way is what is said.
pub fn from_clipboard(
    picture: Found,
    named: Vec<Found>,
    trouble: Trouble,
    platform: Platform,
    terminal: &str,
) -> (r: Result<Clipped, String>)
    ensures
        match picture {
            Some(p) => r == p,
            None => match first_found(named@) {
                Some(p) => r == p,
                None => r is Err && r->Err_0@ == trouble_said(trouble, platform, terminal@),
            },
        },
{
    if let Some(p) = picture {
        return p;
    }
    let mut left = named;
    while left.len() > 0
        invariant
            picture is None,
            first_found(left@) == first_found(named@),
        decreases left@.len(),
    {
        let ghost was = left@;
        let one = left.remove(0);
        assert(left@ =~= was.skip(1));
        if let Some(p) = one {
            return p;
        }
    }
    Err(trouble.into_message(platform, terminal))
}

/// How to ask for the picture that is on offer, if one is.
pub fn clipboard_picture(offer: &Offer) -> (r: Option<Command>)
    ensures
        match picture_among(texts(offer.types@), 0) {
            Some(i) => r is Some && asks_for(r->0, offer.reader@, offer.types@[i]@),
            None => r is None,
        },
{
    match offer.picture() {
        None => None,
        Some(mime) => Some(offer.read(mime)),
    }
}

/// Whether a command asks a program for a type, in the words that program takes.
pub open spec fn asks_for(c: Command, reader: Seq<char>, mime: Seq<char>) -> bool {
    if reader == "wl-paste"@ {
        c.calls(reader, seq!["--no-newline"@, "--type"@, mime])
    } else {
        c.calls(reader, seq!["-selection"@, "clipboard"@, "-t"@, mime, "-o"@])
    }
}

/// A flavour of text from the clipboard: what kind it is, what it says, and whether it is the path
/// of a picture that is there.
#[derive(Debug)]
pub struct Flavour {
    pub kind: &'static str,
    pub text: String,
    pub on_disk: bool,
}

/// Everything that some flavours name, in order.
pub open spec fn names_in(v: Seq<Flavour>) -> Seq<Seq<char>>
    decreases v.len(),
{
    if v.len() == 0 {
        seq![]
    } else {
        names_in(v.drop_last()) + named_by(v.last().kind@, v.last().text@, v.last().on_disk)
    }
}

/// Everything on the clipboard that names a picture, in the order it is trusted. A list rather than
/// one answer: a browser puts several things on at once, and the first of them to look like a picture
/// is not always the one that is.
pub fn clipboard_references(v: &Vec<Flavour>) -> (r: Vec<String>)
    ensures
        texts(r@) == names_in(v@),
{
    let mut r: Vec<String> = Vec::new();
    let mut i: usize = 0;
    assert(texts(r@) =~= names_in(v@.take(0)));
    while i < v.len()
        invariant
            i <= v@.len(),
            texts(r@) == names_in(v@.take(i as int)),
        decreases v@.len() - i,
    {
        proof {
            assert(v@.take(i + 1).drop_last() =~= v@.take(i as int));
            assert(v@.take(i + 1).last() == v@[i as int]);
        }
        let ghost was = texts(r@);
        let mut more = named_in(v[i].kind, v[i].text.as_str(), v[i].on_disk);
        let ghost new = texts(more@);
        r.append(&mut more);
        assert(texts(r@) =~= was + new);
        i = i + 1;
    }
    assert(v@.take(i as int) =~= v@);
    r
}

// ---- fetching ---------------------------------------------------------------

/// A picture being fetched.
#[derive(Debug)]
pub struct Fetch {
    /// Whose server it comes from.
    pub host: String,
    pub bytes: Vec<u8>,
}

impl Fetch {
    /// No more is ever held than one picture may be.
    pub open spec fn wf(self) -> bool {
        self.bytes@.len() <= MAX_FETCH
    }

    /// What a server answered: whether it will serve the picture, in its own words where it will
    /// not, and how long it says that is where it says.
    pub fn begin(host: String, refused: Option<&str>, length: Option<u64>) -> (r: Result<
        Fetch,
        String,
    >)
        ensures
            match refused {
                Some(status) => r is Err && r->Err_0@ == host@ + " said "@ + status@,
                None => if length is Some && length->0 > MAX_FETCH {
                    r is Err && r->Err_0@ == host@ + " is offering more than "@ + size_said(
                        MAX_FETCH as nat,
                    ) + " of picture"@
                } else {
                    r is Ok && r->Ok_0.wf() && r->Ok_0.host == host && r->Ok_0.bytes@.len() == 0
                },
            },
    {
        if let Some(status) = refused {
            let mut said = host;
            said.push_str(" said ");
            said.push_str(status);
            return Err(said);
        }
        if let Some(n) = length {
            if n > MAX_FETCH {
                let mut said = host;
                said.push_str(" is offering more than ");
                said.push_str(human(25_000_000).as_str());
                said.push_str(" of picture");
                return Err(said);
            }
        }
        Ok(Fetch { host, bytes: Vec::new() })
    }

    /// More of it. A server is not obliged to say how big a thing is, so what has come is counted.
    pub fn take(&mut self, chunk: &[u8]) -> (r: Result<(), String>)
        requires
            old(self).wf(),
        ensures
            final(self).wf(),
            final(self).host == old(self).host,
            if old(self).bytes@.len() + chunk@.len() > MAX_FETCH {
                &&& r is Err
                &&& r->Err_0@ == "that is more than "@ + size_said(MAX_FETCH as nat) + " of picture"@
                &&& final(self).bytes@ == old(self).bytes@
            } else {
                r is Ok && final(self).bytes@ == old(self).bytes@ + chunk@
            },
    {
        let n = chunk.len();
        let room = MAX_FETCH - self.bytes.len() as u64;
        if n as u64 > room {
            let mut said = "that is more than ".to_owned();
            said.push_str(human(25_000_000).as_str());
            said.push_str(" of picture");
            return Err(said);
        }
        let ghost had = self.bytes@;
        let mut i: usize = 0;
        assert(self.bytes@ =~= had + chunk@.take(0));
        while i < n
            invariant
                i <= n,
                n == chunk@.len(),
                self.host == old(self).host,
                had == old(self).bytes@,
                self.bytes@ == had + chunk@.take(i as int),
            decreases n - i,
        {
            self.bytes.push(chunk[i]);
            assert(chunk@.take(i + 1) =~= chunk@.take(i as int).push(chunk@[i as int]));
            assert(self.bytes@ =~= had + chunk@.take(i + 1));
            i = i + 1;
        }
        assert(chunk@.take(i as int) =~= chunk@);
        Ok(())
    }

    /// A server that stopped half way.
    pub fn stopped(&self, error: &str) -> (r: String)
        ensures
            r@ == self.host@ + " stopped sending: "@ + error@,
    {
        let mut said = self.host.clone();
        said.push_str(" stopped sending: ");
        said.push_str(error);
        said
    }
}

/// What is said of a server that could not be reached.
pub fn unreachable_host(host: &str, error: &str) -> (r: String)
    ensures
        r@ == "could not reach "@ + host@ + ": "@ + error@,
{
    let mut said = "could not reach ".to_owned();
    said.push_str(host);
    said.push_str(": ");
    said.push_str(error);
    said
}

/// What is said of a file that could not be read.
pub fn unreadable_file(path: &str, error: &str) -> (r: String)
    ensures
        r@ == "could not read "@ + path@ + ": "@ + error@,
{
    let mut said = "could not read ".to_owned();
    said.push_str(path);
    said.push_str(": ");
    said.push_str(error);
    said
}

} // verus!
