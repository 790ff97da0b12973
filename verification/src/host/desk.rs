//! What answering a plugin changes in the workspace itself: the pictures that wait to be sent, and
//! what plugins have put on the rows of the screen.

use crate::host::calls::{
    answer, answered, attach_each, detach, info_of, infos, is_folder_added, kept_under, loaded, redrawn,
    rtp_add, seen_as, title_given, ApiError, AttachmentInfo, Call, Do, Given, Known, Outcome,
};
use crate::host::composer::Hint;
use crate::host::kept::{
    all_differ, drop_hint, drop_segment, hint_names, hints_without, is_hint_kept, is_segment_kept,
    keep_hint, keep_segment, lemma_row_taken, one_row_each, put_row, row_at, segment_names,
    segments_without, take_attachments, Attached,
};
use crate::host::peers::pair_as;
use crate::host::status::Segment;
use crate::host::swarm::{text_of, Stranger};
use crate::images::Attachment;
use crate::notify::SessionId;
use crate::text::{is_blank, texts};
use crate::words::concat;
use vstd::prelude::*;

verus! {

/// What plugins can change by asking.
#[derive(Debug)]
pub struct Desk {
    /// The conversation on screen.
    pub here: SessionId,
    /// What is attached in each conversation.
    pub rows: Vec<Attached>,
    pub hints: Vec<Hint>,
    pub segments: Vec<Segment>,
    /// The folders plugins are looked for in.
    pub plugin_dirs: Vec<String>,
}

impl Desk {
    /// There is one row for each conversation at most, and one thing under each name.
    pub open spec fn wf(self) -> bool {
        &&& one_row_each(self.rows@)
        &&& all_differ(hint_names(self.hints@))
        &&& all_differ(segment_names(self.segments@))
    }

    /// A desk with nothing on it.
    pub fn new(here: SessionId) -> (r: Desk)
        ensures
            r.wf(),
            r.here == here,
            r.rows@.len() == 0,
            r.hints@.len() == 0,
            r.segments@.len() == 0,
            r.plugin_dirs@.len() == 0,
    {
        Desk {
            here,
            rows: Vec::new(),
            hints: Vec::new(),
            segments: Vec::new(),
            plugin_dirs: Vec::new(),
        }
    }
}

/// What the things to be done about a call are done with, where that is more than the call says.
#[derive(Debug)]
pub enum Detail {
    Nothing,
    /// For which plugin something is kept, under which key, and what. Nothing is dropped.
    State(String, String, Option<String>),
    /// In which scope a variable is kept, under which key, and what. Nothing is dropped. Every plugin
    /// is told the same.
    Var(String, String, Option<String>),
    /// What every plugin is told: what it is called, what it brings, and who said it.
    Event(String, String, String),
    /// With which machine to pair, what to call it, where it is, and what is said of it.
    Pair(String, String, Option<String>, String),
    /// Of which instance the key is forgotten, and what is said of it.
    Forget(String, String),
    /// What a new conversation is called.
    New(Option<String>),
}

/// What the things to be done about a call are done with, as plain values.
pub enum Meant {
    Nothing,
    State(Seq<char>, Seq<char>, Option<Seq<char>>),
    Var(Seq<char>, Seq<char>, Option<Seq<char>>),
    Event(Seq<char>, Seq<char>, Seq<char>),
    Pair(Seq<char>, Seq<char>, Option<Seq<char>>, Seq<char>),
    Forget(Seq<char>, Seq<char>),
    New(Option<Seq<char>>),
}

impl View for Detail {
    type V = Meant;

    open spec fn view(&self) -> Meant {
        match self {
            Detail::Nothing => Meant::Nothing,
            Detail::State(p, k, v) => Meant::State(p@, k@, text_of(*v)),
            Detail::Var(s, k, v) => Meant::Var(s@, k@, text_of(*v)),
            Detail::Event(n, d, from) => Meant::Event(n@, d@, from@),
            Detail::Pair(n, name, a, said) => Meant::Pair(n@, name@, text_of(*a), said@),
            Detail::Forget(i, said) => Meant::Forget(i@, said@),
            Detail::New(t) => Meant::New(text_of(*t)),
        }
    }
}

/// What a machine is paired as: what it called itself, and only where it did not what we were told to
/// call it.
pub open spec fn paired_name(stranger: Option<Stranger>, name: Seq<char>) -> Seq<char> {
    if stranger is Some && stranger->0.name@.len() > 0 {
        stranger->0.name@
    } else {
        name
    }
}

/// Where a machine is dialled: at the address that was given, or else where it was met.
pub open spec fn paired_at(stranger: Option<Stranger>, addr: Option<String>) -> Option<Seq<char>> {
    if addr is Some {
        text_of(addr)
    } else if stranger is Some {
        text_of(stranger->0.addr)
    } else {
        None
    }
}

/// What the things to be done about a call are done with. What a plugin keeps is kept under its own
/// name, and what it says is said in its own name: neither is the plugin's to choose.
pub open spec fn meant_by(call: Call, k: Known) -> Meant {
    match call {
        Call::StateSet(key, value) => Meant::State(k.plugin@, key@, Some(value@)),
        Call::StateDelete(key) => Meant::State(k.plugin@, key@, None),
        Call::VarSet(scope, key, value) => Meant::Var(scope@, key@, Some(value@)),
        Call::VarDelete(scope, key) => Meant::Var(scope@, key@, None),
        Call::EventEmit(name, data) => Meant::Event(name@, data@, k.plugin@),
        Call::SwarmPair(node, name, addr) => if k.swarm {
            Meant::Pair(
                node@,
                paired_name(k.stranger, name@),
                paired_at(k.stranger, addr),
                "paired with "@ + paired_name(k.stranger, name@),
            )
        } else {
            Meant::Nothing
        },
        Call::ProviderForgetCredential(instance) => Meant::Forget(
            instance@,
            "forgot the key for "@ + instance@,
        ),
        Call::SessionNew(_, title, _) => if k.is_dir {
            Meant::New(
                if title is Some && !is_blank(title->0@) {
                    Some(title->0@)
                } else {
                    None
                },
            )
        } else {
            Meant::Nothing
        },
        _ => Meant::Nothing,
    }
}

/// What the things to be done about a call are done with.
fn detail_of(call: Call, k: &Known) -> (r: Detail)
    ensures
        r@ == meant_by(call, *k),
{
    match call {
        Call::StateSet(key, value) => Detail::State(k.plugin.clone(), key, Some(value)),
        Call::StateDelete(key) => Detail::State(k.plugin.clone(), key, None),
        Call::VarSet(scope, key, value) => Detail::Var(scope, key, Some(value)),
        Call::VarDelete(scope, key) => Detail::Var(scope, key, None),
        Call::EventEmit(name, data) => Detail::Event(name, data, k.plugin.clone()),
        Call::SwarmPair(node, name, addr) => {
            if !k.swarm {
                return Detail::Nothing;
            }
            let met = match &k.stranger {
                Some(s) => Some(s),
                None => None,
            };
            let (called, at) = pair_as(met, name, addr);
            let said = concat("paired with ", called.as_str());
            Detail::Pair(node, called, at, said)
        },
        Call::ProviderForgetCredential(instance) => {
            let said = concat("forgot the key for ", instance.as_str());
            Detail::Forget(instance, said)
        },
        Call::SessionNew(_, title, _) => if k.is_dir {
            Detail::New(title_given(title))
        } else {
            Detail::Nothing
        },
        _ => Detail::Nothing,
    }
}

/// What a call gives back beside its answer.
#[derive(Debug)]
pub struct Answered {
    pub outcome: Outcome,
    pub detail: Detail,
    /// The pictures it is about.
    pub pictures: Vec<AttachmentInfo>,
    /// The folders it is about.
    pub folders: Vec<String>,
}

/// The row on screen once a call has been answered.
pub open spec fn row_after(
    call: Call,
    row: Seq<Attachment>,
    pictures: Seq<Result<Attachment, String>>,
) -> Seq<Attachment> {
    match call {
        Call::AgentSend => row + loaded(pictures),
        Call::ChatAttach => row + loaded(pictures),
        Call::ChatDetach(index) => match index {
            Some(i) => if i < row.len() {
                row.remove(i as int)
            } else {
                row
            },
            None => if row.len() > 0 {
                row.drop_last()
            } else {
                row
            },
        },
        Call::ChatDetachAll => seq![],
        _ => row,
    }
}

/// The pictures that come back from a call: what was attached, what is there, or what was taken off.
pub open spec fn shown_of(
    call: Call,
    row: Seq<Attachment>,
    pictures: Seq<Result<Attachment, String>>,
) -> Seq<Attachment> {
    match call {
        Call::ChatAttach => loaded(pictures),
        Call::ChatAttachments => row,
        Call::ChatDetach(index) => match index {
            Some(i) => if i < row.len() {
                seq![row[i as int]]
            } else {
                seq![]
            },
            None => if row.len() > 0 {
                seq![row.last()]
            } else {
                seq![]
            },
        },
        Call::ChatDetachAll => row,
        _ => seq![],
    }
}

/// Whether these are what a plugin sees of some pictures.
pub open spec fn are_seen(v: Seq<AttachmentInfo>, pictures: Seq<Attachment>) -> bool {
    v.len() == pictures.len() && forall|i: int|
        0 <= i < v.len() ==> seen_as(#[trigger] v[i], pictures[i])
}

/// Whether these are the shortcuts on the row once a call has been answered.
pub open spec fn hints_after(was: Seq<Hint>, call: Call, plugin: Seq<char>, is: Seq<Hint>) -> bool {
    match call {
        Call::HintSet(key, keys, label, priority) => is_hint_kept(
            was,
            kept_under(plugin, key@),
            keys,
            label,
            priority,
            is,
        ),
        Call::HintClear(key) => is == hints_without(was, kept_under(plugin, key@)),
        _ => is == was,
    }
}

/// Whether these are the parts of the strip once a call has been answered.
pub open spec fn segments_after(
    was: Seq<Segment>,
    call: Call,
    plugin: Seq<char>,
    is: Seq<Segment>,
) -> bool {
    match call {
        Call::StatusSet(key, segment) => is_segment_kept(
            was,
            kept_under(plugin, key@),
            segment,
            is,
        ),
        Call::StatusClear(key) => is == segments_without(was, kept_under(plugin, key@)),
        _ => is == was,
    }
}

/// Whether these are the folders plugins are looked for in once a call has been answered.
pub open spec fn folders_after(
    was: Seq<Seq<char>>,
    call: Call,
    k: Known,
    is: Seq<Seq<char>>,
) -> bool {
    match call {
        Call::RtpAdd(path) => if k.discovered {
            is == was
        } else {
            is_folder_added(
                was,
                path@,
                text_of(k.home),
                is,
            )
        },
        _ => is == was,
    }
}

/// Put the pictures that a call brings on the row, and answer it.
fn sent(
    call: &Call,
    pictures: Vec<Result<Attachment, String>>,
    row: &mut Vec<Attachment>,
    Ghost(k): Ghost<Known>,
) -> (r: Outcome)
    requires
        call is AgentSend || call is ChatAttach,
    ensures
        r@ == answered(*call, k, pictures@),
        final(row)@ == old(row)@ + loaded(pictures@),
{
    let before = row.len();
    let trouble = attach_each(row, pictures);
    let mut does: Vec<Do> = Vec::new();
    if row.len() > before {
        does.push(Do::RefreshComposer);
    }
    assert(does@ =~= redrawn(pictures@));
    match trouble {
        Some(e) => Outcome { does, reply: Err(ApiError::InvalidArgument(e)) },
        None => match call {
            Call::AgentSend => {
                let ghost drawn = does@;
                does.push(Do::StartTurn);
                assert(does@ =~= drawn + seq![Do::StartTurn]);
                Outcome { does, reply: Ok(Given::Unit) }
            },
            _ => Outcome { does, reply: Ok(Given::Attachments) },
        },
    }
}

impl Desk {
    /// Answer what a plugin asked of the agent's side of the workspace. `pictures` is what came of
    /// each picture that the call names. What the call changes on the desk is changed: a picture is
    /// put on the row of the conversation on screen or taken off it, and no other row is touched.
    pub fn agent_call(
        &mut self,
        call: Call,
        k: &Known,
        pictures: Vec<Result<Attachment, String>>,
    ) -> (r: Answered)
        requires
            old(self).wf(),
        ensures
            final(self).wf(),
            final(self).here == old(self).here,
            r.outcome@ == answered(call, *k, pictures@),
            r.detail@ == meant_by(call, *k),
            row_at(final(self).rows@, old(self).here.0@) == row_after(
                call,
                row_at(old(self).rows@, old(self).here.0@),
                pictures@,
            ),
            forall|s: Seq<char>|
                s != old(self).here.0@ ==> #[trigger] row_at(final(self).rows@, s) == row_at(
                    old(self).rows@,
                    s,
                ),
            r.outcome.reply is Ok ==> are_seen(
                r.pictures@,
                shown_of(call, row_at(old(self).rows@, old(self).here.0@), pictures@),
            ),
            r.outcome.reply is Err ==> r.pictures@.len() == 0,
            hints_after(old(self).hints@, call, k.plugin@, final(self).hints@),
            segments_after(old(self).segments@, call, k.plugin@, final(self).segments@),
            folders_after(
                texts(old(self).plugin_dirs@),
                call,
                *k,
                texts(final(self).plugin_dirs@),
            ),
            texts(r.folders@) == (if call is RtpList {
                texts(old(self).plugin_dirs@)
            } else {
                seq![]
            }),
    {
        let ghost here = self.here.0@;
        let ghost rows0 = self.rows@;
        let ghost row0 = row_at(rows0, here);
        let none: Vec<String> = Vec::new();
        assert(texts(none@) =~= seq![]);
        let folders = match &call {
            Call::RtpList => all_of(&self.plugin_dirs),
            _ => none,
        };
        let mut row = take_attachments(&mut self.rows, &self.here);
        let ghost left = self.rows@;
        proof {
            assert forall|s: Seq<char>| s != here implies #[trigger] row_at(left, s) == row_at(
                rows0,
                s,
            ) by {
                lemma_row_taken(rows0, here, left, s);
            }
            lemma_row_taken(rows0, here, left, here);
            assert(row@ =~= row0);
        }
        let mut seen: Vec<AttachmentInfo> = Vec::new();
        let outcome = match &call {
            Call::AgentSend => sent(&call, pictures, &mut row, Ghost(*k)),
            Call::ChatAttach => {
                let n = row.len();
                let r = sent(&call, pictures, &mut row, Ghost(*k));
                if r.reply.is_ok() {
                    seen = infos_from(&row, n);
                    assert(row@.skip(n as int) =~= loaded(pictures@));
                }
                r
            },
            _ => answer(&call, k),
        };
        match &call {
            Call::ChatAttachments => {
                seen = infos(&row);
            },
            Call::ChatDetach(index) => {
                if let Some(gone) = detach(&mut row, *index) {
                    seen.push(info_of(&gone));
                }
            },
            Call::ChatDetachAll => {
                seen = infos(&row);
                row = Vec::new();
            },
            _ => {},
        }
        assert(row@ =~= row_after(call, row0, pictures@));
        put_row(&mut self.rows, &self.here, row);
        let mut detail = Detail::Nothing;
        match call {
            Call::HintSet(key, keys, label, priority) => {
                keep_hint(
                    &mut self.hints,
                    k.plugin.as_str(),
                    key.as_str(),
                    keys,
                    label,
                    priority,
                );
            },
            Call::HintClear(key) => {
                drop_hint(&mut self.hints, k.plugin.as_str(), key.as_str());
            },
            Call::StatusSet(key, segment) => {
                keep_segment(&mut self.segments, k.plugin.as_str(), key.as_str(), segment);
            },
            Call::StatusClear(key) => {
                drop_segment(&mut self.segments, k.plugin.as_str(), key.as_str());
            },
            Call::RtpAdd(path) => {
                if !k.discovered {
                    let home = match &k.home {
                        Some(h) => Some(h.as_str()),
                        None => None,
                    };
                    rtp_add(&mut self.plugin_dirs, path.as_str(), home);
                }
            },
            other => {
                detail = detail_of(other, k);
            },
        }
        Answered { outcome, detail, pictures: seen, folders }
    }
}

/// What a plugin sees of the pictures of a row from the `n`th on.
fn infos_from(row: &Vec<Attachment>, n: usize) -> (r: Vec<AttachmentInfo>)
    requires
        n <= row@.len(),
    ensures
        are_seen(r@, row@.skip(n as int)),
{
    let ghost rest = row@.skip(n as int);
    let mut r: Vec<AttachmentInfo> = Vec::new();
    let mut i: usize = n;
    while i < row.len()
        invariant
            n <= i <= row@.len(),
            rest == row@.skip(n as int),
            r@.len() == i - n,
            forall|j: int| 0 <= j < r@.len() ==> seen_as(#[trigger] r@[j], rest[j]),
        decreases row@.len() - i,
    {
        assert(rest[i - n] == row@[i as int]);
        r.push(info_of(&row[i]));
        i = i + 1;
    }
    r
}

/// Some texts again.
fn all_of(v: &Vec<String>) -> (r: Vec<String>)
    ensures
        texts(r@) == texts(v@),
{
    let mut r: Vec<String> = Vec::new();
    let mut i: usize = 0;
    assert(texts(r@) =~= texts(v@).take(0));
    while i < v.len()
        invariant
            i <= v@.len(),
            texts(r@) == texts(v@).take(i as int),
        decreases v@.len() - i,
    {
        let ghost was = texts(r@);
        r.push(v[i].clone());
        assert(texts(r@) =~= was.push(v@[i as int]@));
        i = i + 1;
        assert(texts(v@).take(i as int) =~= was.push(v@[i - 1]@));
    }
    assert(texts(v@).take(i as int) =~= texts(v@));
    r
}

/// A plugin speaks in its own name and keeps what is its own: whose a thing is, or who said it, is
/// who called, and nothing that the call brings changes that.
pub proof fn a_plugin_cannot_speak_for_another(call: Call, k: Known)
    ensures
        match meant_by(call, k) {
            Meant::State(owner, _, _) => owner == k.plugin@,
            Meant::Event(_, _, from) => from == k.plugin@,
            _ => true,
        },
{
}

/// A picture taken off the row is the one that is named, or the newest, and nothing else moves: what
/// is left and what came back are what was there.
pub proof fn a_picture_taken_off_is_the_one_meant(row: Seq<Attachment>, index: Option<u32>)
    ensures
        ({
            let call = Call::ChatDetach(index);
            let left = row_after(call, row, seq![]);
            let gone = shown_of(call, row, seq![]);
            &&& left.len() + gone.len() == row.len()
            &&& gone.len() <= 1
            &&& gone.len() == 1 ==> left.insert(
                match index {
                    Some(i) => i as int,
                    None => row.len() - 1,
                },
                gone[0],
            ) == row
            &&& gone.len() == 0 ==> left == row && (row.len() == 0 || index->0 >= row.len())
        }),
{
    let call = Call::ChatDetach(index);
    let left = row_after(call, row, seq![]);
    let gone = shown_of(call, row, seq![]);
    if gone.len() == 1 {
        let i = match index {
            Some(i) => i as int,
            None => row.len() - 1,
        };
        assert(left.insert(i, gone[0]) =~= row);
    }
}

} // verus!
