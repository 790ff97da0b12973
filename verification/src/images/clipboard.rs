//! Asking the system clipboard for a picture.
//!
//! Nothing here knows how to talk to a clipboard. Every desktop already ships a program whose whole
//! job that is; this says which to run, with what, and what to make of what came back.

use crate::notify::quoting::Command;
use crate::text::{chars_of, position, position_of, same_chars, string_of, texts, trim, trim_of};
use crate::words::{
    contains, holds, join_with, joined_with, lines, lines_of, lower, lowered, slices,
};
use vstd::prelude::*;
use vstd::slice::slice_subrange;

verus! {

/// The kind of desktop this is.
#[derive(Debug, Clone, Copy, PartialEq, Eq, Structural)]
pub enum Platform {
    Mac,
    Windows,
    /// Wayland or X11.
    Other,
}

/// Whether this desktop's clipboard can be *asked what it holds* before being asked for it.
///
/// Wayland and X11 can, and it is the whole difference between this working and not. The others
/// cannot cheaply, so there the programs are tried in turn and the first that answers wins.
pub fn asks_first(platform: Platform) -> (r: bool)
    ensures
        r == (platform == Platform::Other),
{
    match platform {
        Platform::Other => true,
        _ => false,
    }
}

/// What a Wayland or X11 clipboard says it is holding, and the program that answered.
#[derive(Debug)]
pub struct Offer {
    pub reader: &'static str,
    /// Exactly as offered, case and parameters and all: `image/x-MS-bmp` is a real target atom and
    /// a request for `image/x-ms-bmp` gets nothing.
    pub types: Vec<String>,
}

/// Whether an offered type is `mime`: without its parameters, and whatever its case.
pub open spec fn is_type(offered: Seq<char>, mime: Seq<char>) -> bool {
    lower(trim_of(offered.take(position_of(offered, ';')))) == lower(mime)
}

/// Which of some offered types is `mime`, the first if several are.
pub open spec fn type_among(types: Seq<Seq<char>>, mime: Seq<char>) -> Option<int>
    decreases types.len(),
{
    if types.len() == 0 {
        None
    } else {
        match type_among(types.drop_last(), mime) {
            Some(i) => Some(i),
            None => if is_type(types.last(), mime) {
                Some(types.len() - 1)
            } else {
                None
            },
        }
    }
}

/// The picture types worth asking for, best first. Every one of them can be decoded: offering to
/// take a thing that cannot be opened would turn "no picture" into "a picture that failed".
pub const DECODABLE: [&'static str; 8] = [
    "image/png",
    "image/jpeg",
    "image/jpg",
    "image/webp",
    "image/gif",
    "image/bmp",
    "image/x-bmp",
    "image/x-ms-bmp",
];

/// Which of some offered types is the best picture, from the `k`th kind worth asking for on.
pub open spec fn picture_among(types: Seq<Seq<char>>, k: int) -> Option<int>
    decreases 8 - k,
{
    if k < 0 || k >= 8 {
        None
    } else {
        match type_among(types, DECODABLE@[k]@) {
            Some(i) => Some(i),
            None => picture_among(types, k + 1),
        }
    }
}

fn matches_type(offered: &str, mime: &str) -> (r: bool)
    ensures
        r == is_type(offered@, mime@),
{
    let chars = chars_of(offered);
    let end = position(chars.as_slice(), ';');
    let head = slice_subrange(chars.as_slice(), 0, end);
    assert(head@ =~= offered@.take(position_of(offered@, ';')));
    let a = lowered(trim(head));
    let wanted = chars_of(mime);
    let b = lowered(wanted.as_slice());
    same_chars(a.as_slice(), b.as_slice())
}

impl Offer {
    fn index_of(&self, mime: &str) -> (r: Option<usize>)
        ensures
            match r {
                Some(i) => i < self.types@.len() && type_among(texts(self.types@), mime@) == Some(
                    i as int,
                ),
                None => type_among(texts(self.types@), mime@) is None,
            },
    {
        let ghost ts = texts(self.types@);
        let mut i: usize = 0;
        assert(ts.take(0) =~= seq![]);
        while i < self.types.len()
            invariant
                i <= self.types@.len(),
                ts == texts(self.types@),
                type_among(ts.take(i as int), mime@) is None,
            decreases self.types@.len() - i,
        {
            proof {
                assert(ts.take(i + 1).drop_last() =~= ts.take(i as int));
                assert(ts.take(i + 1).last() == self.types@[i as int]@);
            }
            if matches_type(self.types[i].as_str(), mime) {
                proof {
                    lemma_type_found(ts, mime@, i + 1);
                }
                return Some(i);
            }
            i = i + 1;
        }
        assert(ts.take(i as int) =~= ts);
        None
    }

    /// The offered type matching `mime`, or nothing.
    pub fn holds(&self, mime: &str) -> (r: Option<&str>)
        ensures
            match type_among(texts(self.types@), mime@) {
                Some(i) => r is Some && r->0@ == self.types@[i]@,
                None => r is None,
            },
    {
        match self.index_of(mime) {
            Some(i) => Some(self.types[i].as_str()),
            None => None,
        }
    }

    /// The best picture type on offer. Best rather than first: a program that offers three has
    /// ranked nothing, and PNG before JPEG before the rest is our ranking to make.
    pub fn picture(&self) -> (r: Option<&str>)
        ensures
            match picture_among(texts(self.types@), 0) {
                Some(i) => r is Some && r->0@ == self.types@[i]@,
                None => r is None,
            },
    {
        let mut k: usize = 0;
        while k < 8
            invariant
                k <= 8,
                picture_among(texts(self.types@), 0) == picture_among(
                    texts(self.types@),
                    k as int,
                ),
            decreases 8 - k,
        {
            if let Some(i) = self.index_of(DECODABLE[k]) {
                return Some(self.types[i].as_str());
            }
            k = k + 1;
        }
        None
    }

    /// How to ask for one of the types on offer.
    pub fn read(&self, mime: &str) -> (r: Command)
        ensures
            if self.reader@ == "wl-paste"@ {
                r.calls(self.reader@, seq!["--no-newline"@, "--type"@, mime@])
            } else {
                r.calls(self.reader@, seq!["-selection"@, "clipboard"@, "-t"@, mime@, "-o"@])
            },
    {
        if crate::text::same_text(self.reader, "wl-paste") {
            let args = vec!["--no-newline".to_owned(), "--type".to_owned(), mime.to_owned()];
            assert(texts(args@) =~= seq!["--no-newline"@, "--type"@, mime@]);
            Command { program: self.reader, args }
        } else {
            let args = vec![
                "-selection".to_owned(),
                "clipboard".to_owned(),
                "-t".to_owned(),
                mime.to_owned(),
                "-o".to_owned(),
            ];
            assert(texts(args@) =~= seq!["-selection"@, "clipboard"@, "-t"@, mime@, "-o"@]);
            Command { program: self.reader, args }
        }
    }
}

proof fn lemma_type_found(types: Seq<Seq<char>>, mime: Seq<char>, n: int)
    requires
        0 <= n <= types.len(),
        type_among(types.take(n), mime) is Some,
    ensures
        type_among(types, mime) == type_among(types.take(n), mime),
    decreases types.len(),
{
    if n == types.len() {
        assert(types.take(n) =~= types);
    } else {
        assert(types.drop_last().take(n) =~= types.take(n));
        lemma_type_found(types.drop_last(), mime, n);
    }
}

/// The type asked for is one the clipboard said it had, and one worth asking for.
pub proof fn the_type_asked_for_was_on_offer(types: Seq<Seq<char>>)
    ensures
        picture_among(types, 0) is Some ==> 0 <= picture_among(types, 0)->0 < types.len()
            && exists|k: int|
            0 <= k < 8 && is_type(types[picture_among(types, 0)->0], #[trigger] DECODABLE@[k]@),
{
    lemma_picture_offered(types, 0);
}

proof fn lemma_type_offered(types: Seq<Seq<char>>, mime: Seq<char>)
    ensures
        type_among(types, mime) is Some ==> 0 <= type_among(types, mime)->0 < types.len()
            && is_type(types[type_among(types, mime)->0], mime),
    decreases types.len(),
{
    if types.len() > 0 {
        lemma_type_offered(types.drop_last(), mime);
        if let Some(i) = type_among(types.drop_last(), mime) {
            assert(types.drop_last()[i] == types[i]);
        }
    }
}

proof fn lemma_picture_offered(types: Seq<Seq<char>>, k: int)
    requires
        k >= 0,
    ensures
        picture_among(types, k) is Some ==> 0 <= picture_among(types, k)->0 < types.len()
            && exists|j: int|
            0 <= j < 8 && is_type(types[picture_among(types, k)->0], #[trigger] DECODABLE@[j]@),
    decreases 8 - k,
{
    if k < 8 {
        lemma_type_offered(types, DECODABLE@[k]@);
        lemma_picture_offered(types, k + 1);
    }
}

// ---- what went wrong on the way ---------------------------------------------

/// What went wrong on the way, for a sentence at the end.
///
/// Three outcomes and they are three different problems: nothing installed to look with, something
/// that looked and could not see, and a clipboard that simply has no picture on it.
#[derive(Debug)]
pub struct Trouble {
    /// Whether any program that could have answered was there to ask.
    pub asked: bool,
    /// What one of them said when it could not look at all.
    pub said: Vec<String>,
    /// Whether one of them was *refused* rather than merely unable to answer, which is the one
    /// case with something a person can go and do about it.
    pub denied: bool,
}

impl Default for Trouble {
    fn default() -> (r: Self)
        ensures
            !r.asked,
            r.said@.len() == 0,
            !r.denied,
    {
        Trouble { asked: false, said: Vec::new(), denied: false }
    }
}

/// The sentence at the end.
pub open spec fn trouble_said(t: Trouble, platform: Platform, terminal: Seq<char>) -> Seq<char> {
    if !t.asked {
        "no clipboard tool to read an image with \u{2014} install one of "@ + joined_with(
            names_of(platform),
            ", "@,
        )
    } else if t.said@.len() > 0 {
        let message = "could not read the clipboard: "@ + joined_with(texts(t.said@), "; "@);
        if t.denied && platform == Platform::Mac {
            message + " \u{2014} macOS refused "@ + terminal
                + "; allow it when the prompt appears, or under System Settings \u{203a} Privacy & Security"@
        } else {
            message
        }
    } else {
        "nothing on the clipboard that is an image"@
    }
}

impl Trouble {
    /// The sentence at the end. `terminal` is the program the user is sitting at, which is what a
    /// refusal is a refusal *of*.
    pub fn into_message(self, platform: Platform, terminal: &str) -> (r: String)
        ensures
            r@ == trouble_said(self, platform, terminal@),
    {
        if !self.asked {
            let names = reader_names(platform);
            return crate::words::concat(
                "no clipboard tool to read an image with \u{2014} install one of ",
                join_with(&names, ", ").as_str(),
            );
        }
        if self.said.len() > 0 {
            let mut message = crate::words::concat(
                "could not read the clipboard: ",
                join_with(&self.said, "; ").as_str(),
            );
            // Only on the platform where the refusal is a grant somebody can give.
            if self.denied && platform == Platform::Mac {
                message.push_str(" \u{2014} macOS refused ");
                message.push_str(terminal);
                message.push_str(
                    "; allow it when the prompt appears, or under System Settings \u{203a} Privacy & Security",
                );
            }
            return message;
        }
        "nothing on the clipboard that is an image".to_owned()
    }
}

/// A complaint that is only that there is nothing on the clipboard.
pub open spec fn is_just_empty(said: Seq<char>) -> bool {
    holds(lower(said), "nothing is copied"@) || holds(lower(said), "not available"@)
}

/// Whether what a clipboard program complained about is only that there is nothing on it.
///
/// An empty clipboard is not a problem with the clipboard, and repeating that back turns the
/// ordinary answer into a sentence that reads like something is broken.
pub fn just_empty(said: &[char]) -> (r: bool)
    ensures
        r == is_just_empty(said@),
{
    let small = lowered(said);
    contains(small.as_slice(), "nothing is copied") || contains(small.as_slice(), "not available")
}

/// A line that says *you were not allowed*.
pub open spec fn is_refusal(line: Seq<char>) -> bool {
    let l = lower(line);
    holds(l, "not authorized"@) || holds(l, "not permitted"@) || holds(l, "not allowed"@) || holds(
        l,
        "permission denied"@,
    ) || holds(l, "-1743"@)
}

fn refusal(line: &[char]) -> (r: bool)
    ensures
        r == is_refusal(line@),
{
    let small = lowered(line);
    let l = small.as_slice();
    contains(l, "not authorized") || contains(l, "not permitted") || contains(l, "not allowed")
        || contains(l, "permission denied") || contains(l, "-1743")
}

/// The first line that is not blank, without the white space around it.
pub open spec fn first_said(ls: Seq<Seq<char>>) -> Option<Seq<char>>
    decreases ls.len(),
{
    if ls.len() == 0 {
        None
    } else if trim_of(ls[0]).len() > 0 {
        Some(trim_of(ls[0]))
    } else {
        first_said(ls.skip(1))
    }
}

/// The first line that says you were not allowed, without the white space around it.
pub open spec fn first_refusal(ls: Seq<Seq<char>>) -> Option<Seq<char>>
    decreases ls.len(),
{
    if ls.len() == 0 {
        None
    } else if trim_of(ls[0]).len() > 0 && is_refusal(trim_of(ls[0])) {
        Some(trim_of(ls[0]))
    } else {
        first_refusal(ls.skip(1))
    }
}

/// The line of a clipboard program's complaint that means *you were not allowed*, or nothing.
///
/// Almost everything these programs print on the way to failing is ordinary and must stay
/// invisible. A refusal is the exception, because it is the one outcome with something to do about
/// it and the one nobody can guess.
pub fn denied_line(said: &str) -> (r: Option<String>)
    ensures
        match first_refusal(lines_of(said@)) {
            Some(l) => r is Some && r->0@ == l,
            None => r is None,
        },
{
    let chars = chars_of(said);
    let ls = lines(chars.as_slice());
    let ghost all = lines_of(said@);
    let mut i: usize = 0;
    assert(all.skip(0) =~= all);
    assert(slices(ls@).len() == ls@.len());
    while i < ls.len()
        invariant
            i <= ls@.len(),
            all == slices(ls@),
            all == lines_of(said@),
            first_refusal(all) == first_refusal(all.skip(i as int)),
        decreases ls@.len() - i,
    {
        assert(all.skip(i as int)[0] == ls@[i as int]@);
        assert(all.skip(i as int).skip(1) =~= all.skip(i + 1));
        let line = trim(ls[i]);
        if line.len() > 0 && refusal(line) {
            return Some(string_of(line));
        }
        i = i + 1;
    }
    None
}

fn first_line(said: &str) -> (r: Option<Vec<char>>)
    ensures
        match first_said(lines_of(said@)) {
            Some(l) => r is Some && r->0@ == l,
            None => r is None,
        },
{
    let chars = chars_of(said);
    let ls = lines(chars.as_slice());
    let ghost all = lines_of(said@);
    let mut i: usize = 0;
    assert(all.skip(0) =~= all);
    assert(slices(ls@).len() == ls@.len());
    while i < ls.len()
        invariant
            i <= ls@.len(),
            all == slices(ls@),
            all == lines_of(said@),
            first_said(all) == first_said(all.skip(i as int)),
        decreases ls@.len() - i,
    {
        assert(all.skip(i as int)[0] == ls@[i as int]@);
        assert(all.skip(i as int).skip(1) =~= all.skip(i + 1));
        let line = trim(ls[i]);
        if line.len() > 0 {
            let s = string_of(line);
            return Some(chars_of(s.as_str()));
        }
        i = i + 1;
    }
    None
}

// ---- what to run, and what to make of it ------------------------------------

/// The lines of a list that are not blank, without the white space around them.
pub open spec fn listed(ls: Seq<Seq<char>>) -> Seq<Seq<char>>
    decreases ls.len(),
{
    if ls.len() == 0 {
        seq![]
    } else {
        let line = trim_of(ls.last());
        let above = listed(ls.drop_last());
        if line.len() > 0 {
            above.push(line)
        } else {
            above
        }
    }
}

fn list(text: &str) -> (r: Vec<String>)
    ensures
        texts(r@) == listed(lines_of(text@)),
{
    let chars = chars_of(text);
    let ls = lines(chars.as_slice());
    let ghost all = lines_of(text@);
    let mut r: Vec<String> = Vec::new();
    let mut i: usize = 0;
    assert(slices(ls@).len() == ls@.len());
    assert(all.take(0) =~= seq![]);
    assert(texts(r@) =~= listed(all.take(0)));
    while i < ls.len()
        invariant
            i <= ls@.len(),
            all == slices(ls@),
            texts(r@) == listed(all.take(i as int)),
        decreases ls@.len() - i,
    {
        let line = trim(ls[i]);
        let ghost before = texts(r@);
        proof {
            assert(all[i as int] == ls@[i as int]@);
            assert(all.take(i + 1).drop_last() =~= all.take(i as int));
            assert(all.take(i + 1).last() == all[i as int]);
        }
        if line.len() > 0 {
            r.push(string_of(line));
            assert(texts(r@) =~= before.push(line@));
        }
        i = i + 1;
    }
    assert(all.take(i as int) =~= all);
    r
}

/// The programs that can be asked what the clipboard holds, and how. Wayland before X11 because a
/// Wayland session usually has `xclip` too, looking at a clipboard that is not the one you copied
/// into.
pub fn offer_readers() -> (r: Vec<Command>)
    ensures
        r@.len() == 2,
        r@[0].calls("wl-paste"@, seq!["--list-types"@]),
        r@[1].calls("xclip"@, seq!["-selection"@, "clipboard"@, "-t"@, "TARGETS"@, "-o"@]),
{
    let a = vec!["--list-types".to_owned()];
    let b = vec![
        "-selection".to_owned(),
        "clipboard".to_owned(),
        "-t".to_owned(),
        "TARGETS".to_owned(),
        "-o".to_owned(),
    ];
    assert(texts(a@) =~= seq!["--list-types"@]);
    assert(texts(b@) =~= seq!["-selection"@, "clipboard"@, "-t"@, "TARGETS"@, "-o"@]);
    vec![Command { program: "wl-paste", args: a }, Command { program: "xclip", args: b }]
}

/// What one program said of what the clipboard holds: an offer where it succeeded. Where it failed,
/// its first complaint is remembered, unless that is only that there is nothing there: a clipboard
/// that cannot be reached at all fails *here*, and the reason is the answer.
pub fn offer(
    reader: &'static str,
    succeeded: bool,
    output: &str,
    complaint: &str,
    trouble: &mut Trouble,
) -> (r: Option<Offer>)
    ensures
        final(trouble).asked,
        final(trouble).denied == old(trouble).denied,
        if succeeded {
            &&& r is Some
            &&& r->0.reader == reader
            &&& texts(r->0.types@) == listed(lines_of(output@))
            &&& final(trouble).said == old(trouble).said
        } else {
            &&& r is None
            &&& match first_said(lines_of(complaint@)) {
                Some(l) => texts(final(trouble).said@) == if is_just_empty(l) {
                    texts(old(trouble).said@)
                } else {
                    texts(old(trouble).said@).push(reader@ + ": "@ + l)
                },
                None => final(trouble).said == old(trouble).said,
            }
        },
{
    trouble.asked = true;
    if succeeded {
        return Some(Offer { reader, types: list(output) });
    }
    if let Some(line) = first_line(complaint) {
        if !just_empty(line.as_slice()) {
            let mut said = reader.to_owned();
            said.push_str(": ");
            crate::text::push_chars(&mut said, line.as_slice());
            let ghost text = said@;
            trouble.said.push(said);
            assert(texts(trouble.said@) =~= texts(old(trouble).said@).push(text));
        }
    }
    None
}

/// The path of whatever file is on the pasteboard: a copy made in Finder.
pub const MAC_FILE: &'static str = "get POSIX path of (the clipboard as \u{ab}class furl\u{bb})";

/// The pasteboard's picture, written to a file and its path printed. Nothing there exits quietly,
/// which is how the caller tells the two apart.
pub const MAC_PNG: &'static str = "set p to (POSIX path of (path to temporary items)) & \"neosh-clipboard.png\"\n\
try\n\
  set d to (the clipboard as \u{ab}class PNGf\u{bb})\n\
on error\n\
  return \"\"\n\
end try\n\
set f to open for access (POSIX file p) with write permission\n\
set eof f to 0\n\
write d to f\n\
close access f\n\
return p";

/// Save the clipboard image to a temporary PNG and print where it went. Nothing on the clipboard
/// exits non-zero, which is how the caller tells the two apart.
pub const WINDOWS_DUMP: &'static str = "[Console]::OutputEncoding = [System.Text.Encoding]::UTF8; \
$img = Get-Clipboard -Format Image; if ($img -eq $null) { exit 1 }; \
$p = [System.IO.Path]::ChangeExtension([System.IO.Path]::GetTempFileName(), 'png'); \
$img.Save($p, [System.Drawing.Imaging.ImageFormat]::Png); Write-Output $p";

/// The programs that can hand over a clipboard image where it cannot be asked what it holds.
pub fn clipboard_readers(platform: Platform) -> (r: Vec<Command>)
    ensures
        match platform {
            Platform::Mac => {
                &&& r@.len() == 3
                &&& r@[0].calls("pngpaste"@, seq!["-"@])
                &&& r@[1].calls("osascript"@, seq!["-e"@, MAC_FILE@])
                &&& r@[2].calls("osascript"@, seq!["-e"@, MAC_PNG@])
            },
            Platform::Windows => r@.len() == 1 && r@[0].calls(
                "powershell"@,
                seq!["-NoProfile"@, "-Command"@, WINDOWS_DUMP@],
            ),
            Platform::Other => r@.len() == 0,
        },
{
    match platform {
        Platform::Mac => {
            let a = vec!["-".to_owned()];
            let b = vec!["-e".to_owned(), MAC_FILE.to_owned()];
            let c = vec!["-e".to_owned(), MAC_PNG.to_owned()];
            assert(texts(a@) =~= seq!["-"@]);
            assert(texts(b@) =~= seq!["-e"@, MAC_FILE@]);
            assert(texts(c@) =~= seq!["-e"@, MAC_PNG@]);
            vec![
                Command { program: "pngpaste", args: a },
                Command { program: "osascript", args: b },
                Command { program: "osascript", args: c },
            ]
        },
        Platform::Windows => {
            let a = vec!["-NoProfile".to_owned(), "-Command".to_owned(), WINDOWS_DUMP.to_owned()];
            assert(texts(a@) =~= seq!["-NoProfile"@, "-Command"@, WINDOWS_DUMP@]);
            vec![Command { program: "powershell", args: a }]
        },
        Platform::Other => Vec::new(),
    }
}

/// The programs that can hand over clipboard *text*, where it cannot be asked what it holds.
pub fn text_readers(platform: Platform) -> (r: Vec<(Command, &'static str)>)
    ensures
        match platform {
            Platform::Mac => r@.len() == 1 && r@[0].0.calls("pbpaste"@, seq![]) && r@[0].1
                == "text/plain",
            Platform::Windows => r@.len() == 1 && r@[0].0.calls(
                "powershell"@,
                seq!["-NoProfile"@, "-Command"@, "Get-Clipboard -Raw"@],
            ) && r@[0].1 == "text/plain",
            Platform::Other => r@.len() == 0,
        },
{
    match platform {
        Platform::Mac => {
            let args: Vec<String> = Vec::new();
            assert(texts(args@) =~= seq![]);
            vec![(Command { program: "pbpaste", args }, "text/plain")]
        },
        Platform::Windows => {
            let a = vec![
                "-NoProfile".to_owned(),
                "-Command".to_owned(),
                "Get-Clipboard -Raw".to_owned(),
            ];
            assert(texts(a@) =~= seq!["-NoProfile"@, "-Command"@, "Get-Clipboard -Raw"@]);
            vec![(Command { program: "powershell", args: a }, "text/plain")]
        },
        Platform::Other => Vec::new(),
    }
}

/// Everything that could have looked.
pub open spec fn names_of(platform: Platform) -> Seq<Seq<char>> {
    match platform {
        Platform::Mac => seq!["pngpaste"@, "osascript"@, "osascript"@],
        Platform::Windows => seq!["powershell"@],
        Platform::Other => seq!["wl-paste"@, "xclip"@],
    }
}

/// Everything that could have looked, for the sentence that says nothing could.
pub fn reader_names(platform: Platform) -> (r: Vec<String>)
    ensures
        texts(r@) == names_of(platform),
{
    let all = if asks_first(platform) {
        offer_readers()
    } else {
        clipboard_readers(platform)
    };
    let mut r: Vec<String> = Vec::new();
    let mut i: usize = 0;
    while i < all.len()
        invariant
            i <= all@.len(),
            r@.len() == i,
            forall|j: int| 0 <= j < i ==> (#[trigger] r@[j])@ == all@[j].program@,
        decreases all@.len() - i,
    {
        r.push(all[i].program.to_owned());
        i = i + 1;
    }
    assert(texts(r@) =~= names_of(platform));
    r
}

/// What a program that hands over a clipboard image came back with.
pub enum Heard {
    /// Nothing to use. The next program gets its turn.
    Nothing,
    /// One line, which is a picture's path if there is a file there.
    Path(String),
    /// The picture itself.
    Bytes,
}

/// Whether one line is all that came back.
pub open spec fn is_line(output: Seq<char>) -> bool {
    trim_of(output).len() > 0 && lines_of(trim_of(output)).len() == 1
}

/// What to make of a program that was asked for a clipboard image. Some of these print a path
/// rather than the picture, so one line that names a file that exists is a path; anything else is
/// the bytes. `output` is what came back as text, where it is text.
///
/// What it complained of is almost all thrown away. The one thing worth rescuing is a refusal:
/// discarding that would turn it into "nothing on the clipboard that is an image", the one sentence
/// guaranteed to send somebody back to copy the picture again.
pub fn hear(
    program: &str,
    succeeded: bool,
    bytes: &[u8],
    output: Option<&str>,
    complaint: &str,
    trouble: &mut Trouble,
) -> (r: Heard)
    ensures
        final(trouble).asked,
        if succeeded && bytes@.len() > 0 {
            &&& final(trouble).said == old(trouble).said
            &&& final(trouble).denied == old(trouble).denied
            &&& match r {
                Heard::Path(p) => output is Some && is_line(output->0@) && p@ == trim_of(
                    output->0@,
                ),
                Heard::Bytes => !(output is Some && is_line(output->0@))
                    && crate::images::sniffed(bytes@) is Some,
                Heard::Nothing => !(output is Some && is_line(output->0@))
                    && crate::images::sniffed(bytes@) is None,
            }
        } else {
            &&& r is Nothing
            &&& match first_refusal(lines_of(complaint@)) {
                Some(l) => final(trouble).denied && texts(final(trouble).said@) == texts(
                    old(trouble).said@,
                ).push(program@ + ": "@ + l),
                None => final(trouble).denied == old(trouble).denied && final(trouble).said
                    == old(trouble).said,
            }
        },
{
    trouble.asked = true;
    if !succeeded || bytes.len() == 0 {
        if let Some(line) = denied_line(complaint) {
            let mut said = program.to_owned();
            said.push_str(": ");
            said.push_str(line.as_str());
            let ghost text = said@;
            trouble.said.push(said);
            assert(texts(trouble.said@) =~= texts(old(trouble).said@).push(text));
            trouble.denied = true;
        }
        return Heard::Nothing;
    }
    if let Some(text) = output {
        if let Some(path) = crate::images::pasting::as_path_line(text) {
            return Heard::Path(path);
        }
    }
    if crate::images::sniff(bytes).is_some() {
        Heard::Bytes
    } else {
        Heard::Nothing
    }
}

/// What to make of the same output once it is known that its one line names no file.
pub fn hear_bytes(bytes: &[u8]) -> (r: Heard)
    ensures
        r == (if crate::images::sniffed(bytes@) is Some {
            Heard::Bytes
        } else {
            Heard::Nothing
        }),
{
    if crate::images::sniff(bytes).is_some() {
        Heard::Bytes
    } else {
        Heard::Nothing
    }
}

/// The flavours of text that may say where a picture is, in the order they are trusted.
pub const FLAVOURS: [&'static str; 3] = ["text/uri-list", "text/html", "text/plain"];

} // verus!
