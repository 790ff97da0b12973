//! What each thing that arrives from a terminal does.
//!
//! A key being typed in takes the keyboard whole, bindings included, and so does a search: `n` is a
//! letter in most words, and the key for the next match.

use vstd::prelude::*;

verus! {

/// Something that arrived from a terminal.
#[derive(Debug)]
pub enum Input {
    Key,
    Paste(String),
    /// A window is drawn otherwise: whether it is the transcript's, the first row it shows, and
    /// whether it is as wide as it was.
    Viewport(bool, u32, bool),
    /// A terminal that has never seen any of this.
    Attached,
    Ready,
    Resize,
    /// A command, and whether there is one of that name.
    Command(bool),
    /// Draw the same state again.
    Repaint,
    Disconnected,
}

/// Where an input arrives.
#[derive(Debug, Clone, Copy)]
pub struct Arrived {
    /// A provider's key is being typed in.
    pub secret: bool,
    /// A search is being typed in.
    pub search: bool,
    /// The transcript is being read.
    pub reading: bool,
    /// The transcript has been scrolled back in.
    pub scrolled: bool,
    /// Something is still loading.
    pub loading: bool,
}

/// Something an input does.
#[derive(Debug)]
pub enum Deed {
    /// It is a key of the provider's key.
    SecretKey,
    SecretPaste(String),
    SearchKey,
    SearchPaste(String),
    /// Hand it to the bindings.
    FeedKey,
    LeaveReading,
    /// Attach the file at the first, and where that cannot be done, go by [`pasted_instead`] with
    /// the second.
    Attach(String, String),
    /// Put it in the composer, where the cursor is.
    Insert(String),
    SetViewport,
    /// The transcript shows this row first, whatever was asked for.
    FollowTop(u32),
    DrawWelcome,
    /// Forget what was waiting to be drawn for whoever was looking before.
    DropQueued,
    /// Say the whole state again.
    Republish,
    /// Tell every plugin that a terminal has come.
    TellAttached,
    ReportLiveNow,
    ScrollComposer,
    /// Keep a command until what may bring it has loaded.
    HoldCommand,
    RunCommand,
    RefreshComposer,
    /// Send what is drawn as it is, and nothing else.
    Flush,
}

/// Whether something that is typed in takes an input for itself.
pub open spec fn is_captured(input: Input, at: Arrived) -> bool {
    (at.secret || at.search) && (input is Key || input is Paste)
}

/// What is done of some deeds where there is reason to.
pub open spec fn done_if(b: bool, d: Deed) -> Seq<Deed> {
    if b {
        seq![d]
    } else {
        seq![]
    }
}

/// What an input does where nothing takes it for itself.
pub open spec fn uncaptured(input: Input, pasted: Option<String>, at: Arrived) -> Seq<Deed> {
    match input {
        Input::Key => seq![Deed::FeedKey],
        Input::Paste(text) => done_if(at.reading, Deed::LeaveReading).push(
            match pasted {
                Some(path) => Deed::Attach(path, text),
                None => Deed::Insert(text),
            },
        ),
        Input::Viewport(chat, top, same) => seq![Deed::SetViewport] + done_if(
            chat && at.scrolled,
            Deed::FollowTop(top),
        ) + done_if(chat && !same, Deed::DrawWelcome),
        Input::Attached => seq![
            Deed::DropQueued,
            Deed::Republish,
            Deed::DrawWelcome,
            Deed::TellAttached,
            Deed::ReportLiveNow,
        ],
        Input::Ready => seq![Deed::ScrollComposer, Deed::DrawWelcome],
        Input::Resize => seq![Deed::ScrollComposer, Deed::DrawWelcome],
        Input::Command(known) => seq![
            if at.loading && !known {
                Deed::HoldCommand
            } else {
                Deed::RunCommand
            },
        ],
        Input::Repaint => seq![Deed::Flush],
        Input::Disconnected => seq![],
    }
}

/// What an input does, in order. The composer says what a key would do, so it is drawn again after
/// everything that nothing took for itself and that changes anything.
pub open spec fn does_of(input: Input, pasted: Option<String>, at: Arrived) -> Seq<Deed> {
    if is_captured(input, at) {
        match input {
            Input::Paste(text) => seq![
                if at.secret {
                    Deed::SecretPaste(text)
                } else {
                    Deed::SearchPaste(text)
                },
            ],
            _ => seq![
                if at.secret {
                    Deed::SecretKey
                } else {
                    Deed::SearchKey
                },
            ],
        }
    } else {
        uncaptured(input, pasted, at) + done_if(
            !at.secret && !at.search && !(input is Repaint),
            Deed::RefreshComposer,
        )
    }
}

/// What an input comes to.
#[derive(Debug)]
pub struct Handled {
    pub does: Vec<Deed>,
    /// Whether the loop goes on.
    pub goes_on: bool,
}

/// What an input does where nothing takes it for itself. `pasted` is the picture that a paste names,
/// where it names one.
pub fn handle_input_uncaptured(input: Input, pasted: Option<String>, at: Arrived) -> (r: Handled)
    ensures
        r.does@ == uncaptured(input, pasted, at),
        r.goes_on == !(input is Disconnected),
{
    let mut goes_on = true;
    let mut does: Vec<Deed> = Vec::new();
    match input {
        Input::Key => {
            does.push(Deed::FeedKey);
        },
        Input::Paste(text) => {
            if at.reading {
                does.push(Deed::LeaveReading);
            }
            // Dragging a file onto a terminal pastes its path, which is the only gesture a terminal
            // has for "this file".
            match pasted {
                Some(path) => {
                    does.push(Deed::Attach(path, text));
                },
                None => {
                    does.push(Deed::Insert(text));
                },
            }
        },
        Input::Viewport(chat, top, same) => {
            does.push(Deed::SetViewport);
            if chat && at.scrolled {
                does.push(Deed::FollowTop(top));
            }
            // What is drawn to a width is drawn again, or a narrow terminal joining a wide
            // workspace keeps the wide one's welcome.
            if chat && !same {
                does.push(Deed::DrawWelcome);
            }
        },
        Input::Attached => {
            does.push(Deed::DropQueued);
            does.push(Deed::Republish);
            does.push(Deed::DrawWelcome);
            does.push(Deed::TellAttached);
            does.push(Deed::ReportLiveNow);
        },
        Input::Ready => {
            does.push(Deed::ScrollComposer);
            does.push(Deed::DrawWelcome);
        },
        Input::Resize => {
            does.push(Deed::ScrollComposer);
            does.push(Deed::DrawWelcome);
        },
        Input::Command(known) => {
            if at.loading && !known {
                does.push(Deed::HoldCommand);
            } else {
                does.push(Deed::RunCommand);
            }
        },
        Input::Repaint => {
            does.push(Deed::Flush);
        },
        Input::Disconnected => {
            goes_on = false;
        },
    }
    assert(does@ =~= uncaptured(input, pasted, at));
    Handled { does, goes_on }
}

/// What an input does. `pasted` is the picture that a paste names, where it names one.
pub fn handle_input(input: Input, pasted: Option<String>, at: Arrived) -> (r: Handled)
    ensures
        r.does@ == does_of(input, pasted, at),
        r.goes_on == !(input is Disconnected),
{
    if at.secret || at.search {
        let taken = match input {
            Input::Key => if at.secret {
                Deed::SecretKey
            } else {
                Deed::SearchKey
            },
            Input::Paste(text) => if at.secret {
                Deed::SecretPaste(text)
            } else {
                Deed::SearchPaste(text)
            },
            other => {
                let r = handle_input_uncaptured(other, pasted, at);
                assert(r.does@ =~= does_of(input, pasted, at));
                return r;
            },
        };
        let does = vec![taken];
        assert(does@ =~= does_of(input, pasted, at));
        return Handled { does, goes_on: true };
    }
    let repaint = match &input {
        Input::Repaint => true,
        _ => false,
    };
    let mut r = handle_input_uncaptured(input, pasted, at);
    if !repaint {
        r.does.push(Deed::RefreshComposer);
    }
    assert(r.does@ =~= does_of(input, pasted, at));
    r
}

/// What is done with a paste that named a picture, once it has been tried: where it could not be
/// attached after all, what was pasted is a path, and a path is perfectly good text.
pub fn pasted_instead(attached: bool, text: String) -> (r: Option<Deed>)
    ensures
        r == (if attached {
            None
        } else {
            Some(Deed::Insert(text))
        }),
{
    if attached {
        None
    } else {
        Some(Deed::Insert(text))
    }
}

/// While something is being typed in, no key and no paste reaches a binding, the composer or the
/// transcript: a key holding an `n` does not do what `n` is bound to, halfway through.
pub proof fn what_is_typed_in_reaches_nothing_else(
    input: Input,
    pasted: Option<String>,
    at: Arrived,
    i: int,
)
    requires
        at.secret || at.search,
        input is Key || input is Paste,
        0 <= i < does_of(input, pasted, at).len(),
    ensures
        ({
            let d = does_of(input, pasted, at)[i];
            if at.secret {
                d is SecretKey || d is SecretPaste
            } else {
                d is SearchKey || d is SearchPaste
            }
        }),
{
}

/// Nothing pasted is lost: where nothing takes it for itself, it is attached or it is put in the
/// composer, and never both.
pub proof fn a_paste_is_attached_or_inserted(text: String, pasted: Option<String>, at: Arrived)
    requires
        !at.secret && !at.search,
    ensures
        ({
            let v = uncaptured(Input::Paste(text), pasted, at);
            &&& v.last() == (match pasted {
                Some(path) => Deed::Attach(path, text),
                None => Deed::Insert(text),
            })
            &&& forall|i: int|
                0 <= i < v.len() - 1 ==> !(#[trigger] v[i] is Attach) && !(v[i] is Insert)
        }),
{
}

} // verus!
