//! What borrows the composer: typing in a key, and typing a search.
//!
//! While one of these is up it has the keyboard whole. A key with an `n` in it must not start
//! whatever `n` is bound to half way through.

use crate::host::calls::{quoted, quoted_of, ApiError, Fault};
use crate::host::keys::{KeyCode, KeyPress};
use crate::host::search::{next_match, place, search_from};
use crate::host::swarm::Waiting;
use crate::measure::{graphemes, graphemes_of, run_on};
use crate::notify::MessageLevel;
use crate::text::{
    chars_of, decimal, decimal_of, is_blank, lemma_trim_blank, same_text, split_on,
    string_of, texts, trim, trim_of, width_in_bytes,
};
use crate::words::{concat, lines, lines_of};
use vstd::prelude::*;

verus! {

// ---- what is written in the composer ----------------------------------------

/// All but the last of some pieces.
pub open spec fn but_last(v: Seq<Seq<char>>) -> Seq<Seq<char>> {
    if v.len() == 0 {
        v
    } else {
        v.drop_last()
    }
}

/// All but the last piece of a text, as text.
pub fn without_last(pieces: &Vec<String>) -> (r: String)
    ensures
        r@ == run_on(but_last(texts(pieces@))),
{
    let mut r = String::new();
    let mut i: usize = 0;
    assert(r@ =~= seq![]);
    assert(texts(pieces@).take(0) =~= seq![]);
    let n = pieces.len();
    while n > 0 && i < n - 1
        invariant
            n == pieces@.len(),
            i <= pieces@.len(),
            pieces@.len() > 0 ==> i < pieces@.len(),
            r@ == run_on(texts(pieces@).take(i as int)),
        decreases pieces@.len() - i,
    {
        proof {
            let v = texts(pieces@).take(i + 1);
            assert(v.drop_last() =~= texts(pieces@).take(i as int));
            assert(v.last() == pieces@[i as int]@);
        }
        r.push_str(pieces[i].as_str());
        i = i + 1;
    }
    assert(texts(pieces@).take(i as int) =~= but_last(texts(pieces@)));
    r
}

/// A text without the last thing that was typed, which is a grapheme and not a character.
pub fn rubbed_out(s: &str) -> (r: String)
    ensures
        r@ == run_on(but_last(graphemes_of(s@))),
        s@.len() == 0 ==> r@.len() == 0,
        s@.len() > 0 ==> exists|n: int| 0 <= n < s@.len() && r@ == #[trigger] s@.take(n),
{
    let pieces = graphemes(s);
    let r = without_last(&pieces);
    proof {
        let v = texts(pieces@);
        if v.len() > 0 {
            assert(v.last() == pieces@[v.len() - 1]@);
            assert(s@.take(r@.len() as int) =~= r@);
        }
    }
    r
}

/// Where the caret goes after a text has been put in the composer: the end of its last line, counted
/// in bytes.
pub open spec fn caret_after(text: Seq<char>) -> (nat, nat) {
    (
        if lines_of(text).len() == 0 {
            0
        } else {
            (lines_of(text).len() - 1) as nat
        },
        width_in_bytes(split_on(text, '\n').last()),
    )
}

/// Where the caret goes after a text has been put in the composer.
pub fn set_composer(text: &str) -> (r: (usize, usize))
    ensures
        r.0 == caret_after(text@).0,
        r.1 == caret_after(text@).1,
{
    let cs = chars_of(text);
    let n = lines(cs.as_slice()).len();
    let row = if n == 0 {
        0
    } else {
        n - 1
    };
    let pieces = crate::words::split(cs.as_slice(), '\n');
    proof {
        lemma_pieces(text@);
        assert(texts(pieces@).last() == pieces@[pieces@.len() - 1]@);
    }
    let col = crate::text::bytes_in(pieces[pieces.len() - 1].as_str());
    (row, col)
}

proof fn lemma_pieces(s: Seq<char>)
    ensures
        split_on(s, '\n').len() >= 1,
    decreases s.len(),
{
    let i = crate::text::position_of(s, '\n');
    if 0 <= i < s.len() {
        lemma_pieces(s.skip(i + 1));
    }
}

// ---- typing in a key --------------------------------------------------------

/// What is known of the instance a key is for.
#[derive(Debug)]
pub struct KeyFor {
    pub label: String,
    /// It has somewhere to put a key.
    pub accepts: bool,
    /// It has one that works.
    pub present: bool,
}

/// A key being typed in.
#[derive(Debug)]
pub struct SecretPrompt {
    pub instance: String,
    pub label: String,
    pub value: String,
    /// What was being written, to be given back.
    pub draft: String,
    pub waiting: Option<Waiting>,
}

/// Why a key cannot be asked for.
pub open spec fn no_secret(
    busy: bool,
    instance: Seq<char>,
    known: Option<KeyFor>,
    replace: bool,
) -> Option<Fault> {
    if busy {
        Some(Fault::Busy("a key is already being entered"@))
    } else {
        match known {
            None => Some(Fault::NotFound("instance "@ + instance)),
            Some(k) => if !k.accepts {
                Some(
                    Fault::InvalidArgument(
                        instance + " signs in on its own \u{2014} it has nowhere to put a key"@,
                    ),
                )
            } else if k.present && !replace {
                Some(
                    Fault::InvalidArgument(
                        instance + " already has a key \u{2014} pass `replace` to change it"@,
                    ),
                )
            } else {
                None
            },
        }
    }
}

/// Start collecting a key, borrowing the composer to do it. What comes back otherwise is what the
/// one who asked should be told, rather than a prompt that cannot lead anywhere.
pub fn begin_secret(
    prompt: &mut Option<SecretPrompt>,
    instance: String,
    known: Option<KeyFor>,
    replace: bool,
    draft: String,
    waiting: Option<Waiting>,
) -> (r: Result<(), ApiError>)
    ensures
        match no_secret(*old(prompt) is Some, instance@, known, replace) {
            Some(f) => r is Err && r->Err_0@ == f && *final(prompt) == *old(prompt),
            None => {
                &&& r is Ok
                &&& *final(prompt) is Some
                &&& final(prompt)->0.instance == instance
                &&& final(prompt)->0.label == known->0.label
                &&& final(prompt)->0.value@.len() == 0
                &&& final(prompt)->0.draft == draft
                &&& final(prompt)->0.waiting == waiting
            },
        },
{
    if prompt.is_some() {
        return Err(ApiError::Busy("a key is already being entered".to_owned()));
    }
    match known {
        None => Err(ApiError::NotFound(concat("instance ", instance.as_str()))),
        Some(k) => {
            if !k.accepts {
                return Err(
                    ApiError::InvalidArgument(
                        concat(
                            instance.as_str(),
                            " signs in on its own \u{2014} it has nowhere to put a key",
                        ),
                    ),
                );
            }
            if k.present && !replace {
                return Err(
                    ApiError::InvalidArgument(
                        concat(
                            instance.as_str(),
                            " already has a key \u{2014} pass `replace` to change it",
                        ),
                    ),
                );
            }
            *prompt = Some(
                SecretPrompt { instance, label: k.label, value: String::new(), draft, waiting },
            );
            Ok(())
        },
    }
}

/// So many bullets.
pub open spec fn bullets(n: nat) -> Seq<char> {
    Seq::new(n, |i: int| '\u{2022}')
}

/// The most bullets that are drawn.
pub const MOST_BULLETS: usize = 32;

/// What is drawn for a key of so many graphemes: a bullet each, and past a point only how many more.
pub open spec fn mask_of(n: nat) -> Seq<char> {
    if n > MOST_BULLETS {
        bullets(MOST_BULLETS as nat) + " +"@ + decimal((n - MOST_BULLETS) as nat)
    } else {
        bullets(n)
    }
}

/// The line the composer shows while a key of so many graphemes is typed.
pub open spec fn secret_line(label: Seq<char>, n: nat) -> Seq<char> {
    "key for "@ + label + "  "@ + mask_of(n)
}

/// The line the composer shows while a key of so many graphemes is typed.
pub fn masked(label: &str, n: usize) -> (r: String)
    ensures
        r@ == secret_line(label@, n as nat),
{
    let shown = if n > MOST_BULLETS {
        MOST_BULLETS
    } else {
        n
    };
    let mut r = "key for ".to_owned();
    r.push_str(label);
    r.push_str("  ");
    let ghost lead = r@;
    let mut i: usize = 0;
    assert(r@ =~= lead + bullets(0));
    while i < shown
        invariant
            i <= shown,
            r@ == lead + bullets(i as nat),
        decreases shown - i,
    {
        r.push('\u{2022}');
        assert(r@ =~= lead + bullets((i + 1) as nat));
        i = i + 1;
    }
    if n > shown {
        r.push_str(" +");
        r.push_str(decimal_of((n - shown) as u64).as_str());
    }
    assert(r@ =~= secret_line(label@, n as nat));
    r
}

/// What a press came to, while a prompt is up.
#[derive(Debug, Clone, Copy, PartialEq, Eq, Structural)]
pub enum Typed {
    Cancel,
    Submit,
    /// What was typed has changed, and is drawn again.
    Changed,
    Nothing,
}

/// What a press comes to while a key is typed in, and what has been typed by then.
pub open spec fn secret_after(value: Seq<char>, key: KeyPress) -> (Typed, Seq<char>) {
    match key.code {
        KeyCode::Esc => (Typed::Cancel, value),
        KeyCode::Enter => (Typed::Submit, value),
        KeyCode::Backspace => (Typed::Changed, run_on(but_last(graphemes_of(value)))),
        KeyCode::Char(c) => if key.mods.ctrl {
            if c@ == "u"@ {
                (Typed::Changed, seq![])
            } else if c@ == "c"@ {
                (Typed::Cancel, value)
            } else {
                (Typed::Nothing, value)
            }
        } else if !key.mods.alt {
            (Typed::Changed, value + c@)
        } else {
            (Typed::Nothing, value)
        },
        _ => (Typed::Nothing, value),
    }
}

fn type_into(value: &mut String, key: &KeyPress) -> (r: Typed)
    ensures
        (r, final(value)@) == secret_after(old(value)@, *key),
{
    match &key.code {
        KeyCode::Esc => Typed::Cancel,
        KeyCode::Enter => Typed::Submit,
        KeyCode::Backspace => {
            let less = rubbed_out(value.as_str());
            *value = less;
            Typed::Changed
        },
        KeyCode::Char(c) => if key.mods.ctrl {
            if same_text(c.as_str(), "u") {
                *value = String::new();
                assert(value@ =~= seq![]);
                Typed::Changed
            } else if same_text(c.as_str(), "c") {
                Typed::Cancel
            } else {
                Typed::Nothing
            }
        } else if !key.mods.alt {
            value.push_str(c.as_str());
            Typed::Changed
        } else {
            Typed::Nothing
        },
        _ => Typed::Nothing,
    }
}

/// What a prompt closes with.
#[derive(Debug)]
pub struct Closed {
    pub instance: String,
    pub label: String,
    /// The key to keep, where one was entered.
    pub store: Option<String>,
    /// What is written in the composer again.
    pub draft: String,
    pub waiting: Option<Waiting>,
}

impl SecretPrompt {
    /// Draw the prompt: a label, and one bullet for each grapheme. Bullets rather than nothing at
    /// all, because a paste that silently did not arrive is the failure people actually hit.
    pub fn render_secret(&self) -> (r: String)
        ensures
            r@ == secret_line(self.label@, graphemes_of(self.value@).len()),
    {
        let pieces = graphemes(self.value.as_str());
        assert(texts(pieces@).len() == pieces@.len());
        masked(self.label.as_str(), pieces.len())
    }

    /// Every key while a key is being typed.
    pub fn secret_key(&mut self, key: &KeyPress) -> (r: Typed)
        ensures
            (r, final(self).value@) == secret_after(old(self).value@, *key),
            *final(self) == (SecretPrompt { value: final(self).value, ..*old(self) }),
    {
        type_into(&mut self.value, key)
    }

    /// Pasting is how a key actually arrives. What stands round it is stripped: a newline at the end
    /// of a token is a refusal that looks exactly like a wrong key.
    pub fn secret_paste(&mut self, text: &str)
        ensures
            final(self).value@ == old(self).value@ + trim_of(text@),
            *final(self) == (SecretPrompt { value: final(self).value, ..*old(self) }),
    {
        let cs = chars_of(text);
        let cut = string_of(trim(cs.as_slice()));
        self.value.push_str(cut.as_str());
    }

    /// Keep what was typed, or throw it away, and give the composer back.
    pub fn finish_secret(self, submit: bool) -> (r: Closed)
        ensures
            r.instance == self.instance,
            r.label == self.label,
            r.draft == self.draft,
            r.waiting == self.waiting,
            match r.store {
                Some(s) => submit && !is_blank(self.value@) && s@ == trim_of(self.value@),
                None => !submit || is_blank(self.value@),
            },
    {
        proof {
            lemma_trim_blank(self.value@);
        }
        let mut store: Option<String> = None;
        if submit {
            let cs = chars_of(self.value.as_str());
            let cut = trim(cs.as_slice());
            if cut.len() > 0 {
                store = Some(string_of(cut));
            }
        }
        Closed {
            instance: self.instance,
            label: self.label,
            store,
            draft: self.draft,
            waiting: self.waiting,
        }
    }
}

/// Where a key was put.
#[derive(Debug, Clone, Copy, PartialEq, Eq, Structural)]
pub enum Stored {
    Keychain,
    /// Usable, but not tomorrow.
    Session,
}

/// What is said once a prompt for a key has been submitted.
pub open spec fn secret_said(label: Seq<char>, stored: Option<Stored>) -> (MessageLevel, Seq<char>) {
    match stored {
        None => (MessageLevel::Warn, "nothing entered"@),
        Some(Stored::Keychain) => (MessageLevel::Info, label + ": key saved to the keychain"@),
        Some(Stored::Session) => (
            MessageLevel::Warn,
            label
                + ": key kept for this run only \u{2014} no keychain available. Install `secret-tool`, or point `auth` at a command in config.toml."@,
        ),
    }
}

/// What is said once a prompt for a key has been submitted.
pub fn say_stored(label: &str, stored: Option<Stored>) -> (r: (MessageLevel, String))
    ensures
        (r.0, r.1@) == secret_said(label@, stored),
{
    match stored {
        None => (MessageLevel::Warn, "nothing entered".to_owned()),
        Some(Stored::Keychain) => (
            MessageLevel::Info,
            concat(label, ": key saved to the keychain"),
        ),
        Some(Stored::Session) => (
            MessageLevel::Warn,
            concat(
                label,
                ": key kept for this run only \u{2014} no keychain available. Install `secret-tool`, or point `auth` at a command in config.toml.",
            ),
        ),
    }
}

/// Nothing of a key is ever shown: two keys of as many graphemes are drawn alike.
pub proof fn a_key_is_never_shown(label: Seq<char>, a: Seq<char>, b: Seq<char>)
    requires
        graphemes_of(a).len() == graphemes_of(b).len(),
    ensures
        secret_line(label, graphemes_of(a).len()) == secret_line(label, graphemes_of(b).len()),
        forall|i: int|
            0 <= i < mask_of(graphemes_of(a).len()).len() && i < MOST_BULLETS
                ==> #[trigger] mask_of(graphemes_of(a).len())[i] == '\u{2022}',
{
}

// ---- typing a search --------------------------------------------------------

/// A search being typed.
#[derive(Debug)]
pub struct SearchPrompt {
    pub query: String,
    pub back: bool,
    /// Where the cursor was.
    pub from: (usize, usize),
    /// What was being written, to be given back.
    pub draft: String,
}

/// What a press comes to while a search is typed, and what has been typed by then. Rubbing out what
/// is not there gives up.
pub open spec fn search_after(query: Seq<char>, key: KeyPress) -> (Typed, Seq<char>) {
    if key.code is Backspace && query.len() == 0 {
        (Typed::Cancel, query)
    } else {
        secret_after(query, key)
    }
}

/// What closing a search comes to.
#[derive(Debug)]
pub struct Searched {
    /// What is written in the composer again.
    pub draft: String,
    /// Where the cursor goes.
    pub jump: Option<(usize, usize)>,
    /// What `n` looks for from here on, and whether backwards. Nothing, where the search was given
    /// up, and the hits are then no longer lit.
    pub kept: Option<(String, bool)>,
    pub said: Option<String>,
}

impl SearchPrompt {
    /// Start typing a search, borrowing the composer for it.
    pub fn begin_search(back: bool, from: (usize, usize), draft: String) -> (r: SearchPrompt)
        ensures
            r.query@.len() == 0,
            r.back == back,
            r.from == from,
            r.draft == draft,
    {
        SearchPrompt { query: String::new(), back, from, draft }
    }

    /// The line the composer shows.
    pub fn render_search(&self) -> (r: String)
        ensures
            r@ == (if self.back {
                "?"@
            } else {
                "/"@
            }) + self.query@,
    {
        concat(
            if self.back {
                "?"
            } else {
                "/"
            },
            self.query.as_str(),
        )
    }

    /// Every key while a search is typed.
    pub fn search_key(&mut self, key: &KeyPress) -> (r: Typed)
        ensures
            (r, final(self).query@) == search_after(old(self).query@, *key),
            *final(self) == (SearchPrompt { query: final(self).query, ..*old(self) }),
    {
        if let KeyCode::Backspace = &key.code {
            if chars_of(self.query.as_str()).len() == 0 {
                return Typed::Cancel;
            }
        }
        type_into(&mut self.query, key)
    }

    /// What is pasted is typed, without what stands round it.
    pub fn search_paste(&mut self, text: &str)
        ensures
            final(self).query@ == old(self).query@ + trim_of(text@),
            *final(self) == (SearchPrompt { query: final(self).query, ..*old(self) }),
    {
        let cs = chars_of(text);
        let cut = string_of(trim(cs.as_slice()));
        self.query.push_str(cut.as_str());
    }

    /// Where the cursor goes as the search is typed: the first hit from where it was, so that a
    /// search that was going to find nothing says so before you have finished typing it.
    pub fn look(&self, lines: &Vec<String>) -> (r: Option<(usize, usize)>)
        ensures
            match r {
                Some(p) => next_match(
                    texts(lines@),
                    self.query@,
                    place(self.from),
                    !self.back,
                    true,
                ) == Some(place(p)),
                None => next_match(
                    texts(lines@),
                    self.query@,
                    place(self.from),
                    !self.back,
                    true,
                ) is None,
            },
    {
        search_from(lines, self.query.as_str(), self.from, !self.back, true)
    }

    /// Go where the search leads, or back to where it began.
    pub fn finish_search(self, submit: bool, lines: &Vec<String>) -> (r: Searched)
        ensures
            r.draft == self.draft,
            if submit && self.query@.len() > 0 {
                let hit = next_match(
                    texts(lines@),
                    self.query@,
                    place(self.from),
                    !self.back,
                    true,
                );
                &&& r.kept == Some((self.query, self.back))
                &&& match hit {
                    Some(at) => r.jump is Some && place(r.jump->0) == at && r.said is None,
                    None => r.jump is None && r.said is Some && r.said->0@ == "no match for "@
                        + quoted_of(self.query@),
                }
            } else {
                r.kept is None && r.jump == Some(self.from) && r.said is None
            },
    {
        if submit && chars_of(self.query.as_str()).len() > 0 {
            let jump = self.look(lines);
            let said = if jump.is_none() {
                Some(concat("no match for ", quoted(self.query.as_str()).as_str()))
            } else {
                None
            };
            return Searched { draft: self.draft, jump, kept: Some((self.query, self.back)), said };
        }
        Searched { draft: self.draft, jump: Some(self.from), kept: None, said: None }
    }
}

} // verus!
