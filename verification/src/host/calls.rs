//! What a plugin may ask for, and what answering it takes.
//!
//! Each call is a rule: whether the plugin may make it, what has to happen and in what order, and
//! what comes back. The things that happen are named here and done elsewhere, by whoever holds the
//! store, the screen and the other machines.

use crate::host::commands::BUILTIN;
use crate::images::Attachment;
use crate::paths::{at_home, expand_home, maybe};
use crate::text::{
    begins, chars_of, is_blank, lemma_trim_blank, same_text, string_of, texts, trim, trim_of,
};
use crate::words::concat;
use crate::host::status::Segment;
use crate::host::swarm::Stranger;
use crate::paths::spelling::{is_among, path_among};
use vstd::prelude::*;

verus! {

// ---- who may ----------------------------------------------------------------

/// Something a plugin has to declare before it may do it.
#[derive(Debug, Clone, Copy, PartialEq, Eq, Structural)]
pub enum PluginPermission {
    Tools,
    HooksBlocking,
    Providers,
    RawCells,
    VcsWrite,
}

impl PluginPermission {
    /// What it is called in a manifest.
    pub open spec fn called(self) -> Seq<char> {
        match self {
            PluginPermission::Tools => "tools"@,
            PluginPermission::HooksBlocking => "hooks_blocking"@,
            PluginPermission::Providers => "providers"@,
            PluginPermission::RawCells => "raw_cells"@,
            PluginPermission::VcsWrite => "vcs_write"@,
        }
    }

    /// What it is called in a manifest.
    pub fn name(self) -> (r: &'static str)
        ensures
            r@ == self.called(),
    {
        match self {
            PluginPermission::Tools => "tools",
            PluginPermission::HooksBlocking => "hooks_blocking",
            PluginPermission::Providers => "providers",
            PluginPermission::RawCells => "raw_cells",
            PluginPermission::VcsWrite => "vcs_write",
        }
    }
}

/// What a plugin asks for, with what deciding about it needs.
#[derive(Debug)]
pub enum Call {
    AgentSend,
    /// For which conversation.
    AgentCommand(String),
    AgentCancel,
    AgentGetSelection,
    /// On which instance.
    AgentSetSelection(String),
    AgentDriverCommands,
    AgentListInstances,
    AgentListModels,
    ChatAttach,
    ChatAttachments,
    /// Which picture, and the newest where none is named.
    ChatDetach(Option<u32>),
    ChatDetachAll,
    ChatSetDraft,
    StateGet,
    /// Under which key, and what, as it is written.
    StateSet(String, String),
    /// Under which key.
    StateDelete(String),
    VarGet,
    /// In which scope, under which key, and what, as it is written.
    VarSet(String, String, String),
    /// In which scope, under which key.
    VarDelete(String, String),
    VarAll,
    SwarmSelf,
    SwarmNodes,
    SwarmAgents,
    SwarmHostsOf,
    SwarmSubscribe,
    SwarmUnsubscribe,
    SwarmStrangers,
    /// With which machine, what to call it, and where it is.
    SwarmPair(String, String, Option<String>),
    SwarmUnpair,
    SwarmProbe,
    SwarmCommand,
    QuotaList,
    QuotaRefresh,
    /// For which instance.
    QuotaReport(String),
    QuotaHistory,
    UsageHistory,
    /// What it is called, and what it brings, as it is written.
    EventEmit(String, String),
    SessionList,
    SessionCurrent,
    /// In which directory, what it is called, and whether to go there.
    SessionNew(String, Option<String>, bool),
    SessionSwitch,
    SessionClose,
    /// Put away, or taken out again.
    SessionArchive(bool),
    SessionRename,
    /// Of which conversation, and of the one on screen where none is named.
    SessionMessages(Option<String>),
    ProviderCredentials,
    /// Of which instance.
    ProviderForgetCredential(String),
    ProviderSetCredential,
    ProviderRegisterDriver,
    ProviderEmit,
    PermissionGetMode,
    PermissionSetMode,
    PermissionCheck,
    /// Under which key, the keys to press, what they do and how much it matters.
    HintSet(String, String, String, i32),
    /// Under which key.
    HintClear(String),
    /// Under which key, and what stands there.
    StatusSet(String, Segment),
    /// Under which key.
    StatusClear(String),
    ToolRegister,
    ToolUnregister,
    ToolList,
    /// Whether it can refuse.
    HookRegister(bool),
    HookUnregister,
    /// A folder, as it was written.
    RtpAdd(String),
    RtpList,
    GitRead,
    GitWrite,
    GenComplete,
    PathComplete,
    AskUser,
    SurfaceClaim,
    /// Anything the editor itself answers.
    Screen,
    /// Anything else.
    Other,
}

/// What a plugin must have declared to make a call, if anything.
///
/// Most calls need nothing: drawing a window and binding a key are no more privileged than what the
/// person sitting there can already do. A hook that only observes cannot refuse anything, and needs
/// nothing either.
pub fn permission_for(call: &Call) -> (r: Option<PluginPermission>)
    ensures
        r == wanted(*call),
{
    match call {
        Call::ToolRegister => Some(PluginPermission::Tools),
        Call::HookRegister(true) => Some(PluginPermission::HooksBlocking),
        Call::ProviderRegisterDriver => Some(PluginPermission::Providers),
        Call::SurfaceClaim => Some(PluginPermission::RawCells),
        _ => None,
    }
}

/// What a plugin must have declared to make a call, if anything.
pub open spec fn wanted(call: Call) -> Option<PluginPermission> {
    match call {
        Call::ToolRegister => Some(PluginPermission::Tools),
        Call::HookRegister(blocking) => if blocking {
            Some(PluginPermission::HooksBlocking)
        } else {
            None
        },
        Call::ProviderRegisterDriver => Some(PluginPermission::Providers),
        Call::SurfaceClaim => Some(PluginPermission::RawCells),
        _ => None,
    }
}

/// Whether a plugin declared what it wants. The workspace's own calls are not a plugin's.
pub fn may(plugin: &str, declared: &Vec<PluginPermission>, want: PluginPermission) -> (r: bool)
    ensures
        r == allowed(plugin@, declared@, want),
{
    if same_text(plugin, BUILTIN) {
        return true;
    }
    let mut i: usize = 0;
    while i < declared.len()
        invariant
            i <= declared@.len(),
            plugin@ != BUILTIN@,
            forall|j: int| 0 <= j < i ==> #[trigger] declared@[j] != want,
        decreases declared@.len() - i,
    {
        if declared[i] == want {
            assert(declared@.contains(declared@[i as int]));
            return true;
        }
        i = i + 1;
    }
    false
}

/// Whether a plugin declared what it wants.
pub open spec fn allowed(
    plugin: Seq<char>,
    declared: Seq<PluginPermission>,
    want: PluginPermission,
) -> bool {
    plugin == BUILTIN@ || declared.contains(want)
}

/// Whether a call is answered off the loop: it runs a program, asks a model, waits for a person, or
/// reads a great many files.
pub fn is_slow(call: &Call) -> (r: bool)
    ensures
        r == (call is GitRead || call is GitWrite || call is GenComplete || call is AgentListModels
            || call is PermissionCheck || call is PathComplete || call is AskUser
            || call is UsageHistory),
{
    match call {
        Call::GitRead => true,
        Call::GitWrite => true,
        Call::GenComplete => true,
        Call::AgentListModels => true,
        Call::PermissionCheck => true,
        Call::PathComplete => true,
        Call::AskUser => true,
        Call::UsageHistory => true,
        _ => false,
    }
}

/// Who answers what a plugin asked for.
#[derive(Debug, Clone, Copy, PartialEq, Eq, Structural)]
pub enum Handler {
    /// The prompt for a key, when it closes: somebody has to type before anything is known.
    KeyPrompt,
    /// Whatever is at an address, which may not answer.
    Probe,
    /// Another machine, when it answers.
    Machine,
    /// Something off the loop.
    Background,
    /// The loop itself, now.
    Now,
}

/// Who answers a plugin. One that waits for an answer may be answered by another machine; one that
/// does not wait has nobody to hear from there.
pub fn handle_script_out(call: &Call, waits: bool) -> (r: Handler)
    ensures
        r == (if call is ProviderSetCredential {
            Handler::KeyPrompt
        } else if waits && call is SwarmProbe {
            Handler::Probe
        } else if waits && call is SwarmCommand {
            Handler::Machine
        } else if call is GitRead || call is GitWrite || call is GenComplete
            || call is AgentListModels || call is PermissionCheck || call is PathComplete
            || call is AskUser || call is UsageHistory {
            Handler::Background
        } else {
            Handler::Now
        }),
        // Whatever somebody or something else has to answer is not answered by the loop itself.
        (r is KeyPrompt) == (call is ProviderSetCredential),
        (r is Probe) == (waits && call is SwarmProbe),
        (r is Machine) == (waits && call is SwarmCommand),
        (r is Background) == (call is GitRead || call is GitWrite || call is GenComplete
            || call is AgentListModels || call is PermissionCheck || call is PathComplete
            || call is AskUser || call is UsageHistory),
{
    match call {
        Call::ProviderSetCredential => Handler::KeyPrompt,
        Call::SwarmProbe => if waits {
            Handler::Probe
        } else {
            Handler::Now
        },
        Call::SwarmCommand => if waits {
            Handler::Machine
        } else {
            Handler::Now
        },
        _ => if is_slow(call) {
            Handler::Background
        } else {
            Handler::Now
        },
    }
}

/// A configured instance, and the driver that serves it.
#[derive(Debug)]
pub struct Served {
    pub instance: String,
    pub driver: String,
}

/// Whether one of some drivers serves an instance.
pub open spec fn is_served_by(v: Seq<Served>, drivers: Seq<Seq<char>>, instance: Seq<char>) -> bool {
    exists|i: int|
        0 <= i < v.len() && (#[trigger] v[i]).instance@ == instance && drivers.contains(
            v[i].driver@,
        )
}

/// Whether a plugin registered the driver that serves an instance: a figure it is possible to spoof
/// is a figure that should not be drawn as fact.
pub fn plugin_drivers_own(drivers: &Vec<String>, v: &Vec<Served>, instance: &str) -> (r: bool)
    ensures
        r == is_served_by(v@, texts(drivers@), instance@),
{
    let mut i: usize = 0;
    while i < v.len()
        invariant
            i <= v@.len(),
            forall|j: int|
                0 <= j < i ==> !((#[trigger] v@[j]).instance@ == instance@ && texts(
                    drivers@,
                ).contains(v@[j].driver@)),
        decreases v@.len() - i,
    {
        if same_text(v[i].instance.as_str(), instance) && crate::host::startup::listed(
            drivers,
            v[i].driver.as_str(),
        ) {
            return true;
        }
        i = i + 1;
    }
    false
}

// ---- what comes back --------------------------------------------------------

/// Why a call was not answered.
#[derive(Debug)]
pub enum ApiError {
    NotPermitted(String),
    InvalidArgument(String),
    NotFound(String),
    Denied(String),
    Busy(String),
    Internal(String),
}

/// Why a call was not answered, as what it says.
pub enum Fault {
    NotPermitted(Seq<char>),
    InvalidArgument(Seq<char>),
    NotFound(Seq<char>),
    Denied(Seq<char>),
    Busy(Seq<char>),
    Internal(Seq<char>),
}

impl View for ApiError {
    type V = Fault;

    open spec fn view(&self) -> Fault {
        match self {
            ApiError::NotPermitted(s) => Fault::NotPermitted(s@),
            ApiError::InvalidArgument(s) => Fault::InvalidArgument(s@),
            ApiError::NotFound(s) => Fault::NotFound(s@),
            ApiError::Denied(s) => Fault::Denied(s@),
            ApiError::Busy(s) => Fault::Busy(s@),
            ApiError::Internal(s) => Fault::Internal(s@),
        }
    }
}

impl ApiError {
    /// The same again.
    pub fn again(&self) -> (r: ApiError)
        ensures
            r@ == self@,
    {
        match self {
            ApiError::NotPermitted(s) => ApiError::NotPermitted(s.clone()),
            ApiError::InvalidArgument(s) => ApiError::InvalidArgument(s.clone()),
            ApiError::NotFound(s) => ApiError::NotFound(s.clone()),
            ApiError::Denied(s) => ApiError::Denied(s.clone()),
            ApiError::Busy(s) => ApiError::Busy(s.clone()),
            ApiError::Internal(s) => ApiError::Internal(s.clone()),
        }
    }
}

/// What an answer holds.
#[derive(Debug, Clone, Copy, PartialEq, Eq, Structural)]
pub enum Given {
    Unit,
    MaybeSession,
    Attachments,
    Selection,
    DriverCommands,
    Instances,
    Json,
    Vars,
    SwarmSelf,
    SwarmNodes,
    SwarmAgents,
    Names,
    SwarmStrangers,
    Quotas,
    QuotaHistory,
    Sessions,
    Session,
    Credentials,
    Messages,
    PermissionMode,
    Tools,
    Paths,
}

/// Something that has to happen.
#[derive(Debug, Clone, Copy, PartialEq, Eq, Structural)]
pub enum Do {
    /// Read each picture that is named, or the one on the clipboard, and keep a copy. What came of
    /// each goes into answering.
    LoadPictures,
    StartTurn,
    ApplyCommand,
    CancelTurn,
    /// Stop the turn in a conversation that is going, and wait for nothing from it.
    EndTurn,
    SelectModel,
    SetDraft,
    RefreshComposer,
    RefreshStatus,
    WriteState,
    DropState,
    WriteVar,
    DropVar,
    /// Tell every plugin.
    Broadcast,
    Subscribe,
    Unsubscribe,
    Pair,
    ForgetStranger,
    SayPaired,
    Unpair,
    RefreshQuota,
    TakeQuota,
    RememberRepo,
    NewSession,
    Switch,
    /// Make sure that leaving a conversation has somewhere to land.
    EnsureSomewhere,
    ForgetCommands,
    CloseDrivers,
    Remove,
    Archive,
    Rename,
    ForgetFile,
    ForgetVars,
    /// Point the tools at the directory of the conversation on screen.
    WorkIn,
    EnterSession,
    SaveAll,
    ForgetKey,
    SayForgotten,
    SetPermissionMode,
    RegisterTool,
    UnregisterTool,
    RegisterHook,
    UnregisterHook,
    RegisterDriver,
    RememberDriver,
    ApplyPendingModel,
    EmitProvider,
}

/// What answering a call comes to: what happens, in order, and what comes back.
#[derive(Debug)]
pub struct Outcome {
    pub does: Vec<Do>,
    pub reply: Result<Given, ApiError>,
}

/// What answering a call comes to.
pub struct Answer {
    pub does: Seq<Do>,
    pub reply: Result<Given, Fault>,
}

impl View for Outcome {
    type V = Answer;

    open spec fn view(&self) -> Answer {
        Answer {
            does: self.does@,
            reply: match self.reply {
                Ok(g) => Ok(g),
                Err(e) => Err(e@),
            },
        }
    }
}

/// Why the store would not.
#[derive(Debug)]
pub enum StoreError {
    /// It is the only conversation there is.
    LastSession(String),
    NoSuch(String),
}

impl StoreError {
    /// What it says.
    pub open spec fn says(self) -> Seq<char> {
        match self {
            StoreError::LastSession(s) => s@,
            StoreError::NoSuch(s) => s@,
        }
    }

    /// What a plugin is told: that what it asked for cannot be had, or that there is no such thing.
    pub fn told(&self) -> (r: ApiError)
        ensures
            r@ == store_fault(*self),
    {
        match self {
            StoreError::LastSession(s) => ApiError::InvalidArgument(s.clone()),
            StoreError::NoSuch(s) => ApiError::NotFound(s.clone()),
        }
    }

    fn missing(&self) -> (r: ApiError)
        ensures
            r@ == Fault::NotFound(self.says()),
    {
        match self {
            StoreError::LastSession(s) => ApiError::NotFound(s.clone()),
            StoreError::NoSuch(s) => ApiError::NotFound(s.clone()),
        }
    }
}

/// What a plugin is told of what the store would not do.
pub open spec fn store_fault(e: StoreError) -> Fault {
    match e {
        StoreError::LastSession(s) => Fault::InvalidArgument(s@),
        StoreError::NoSuch(s) => Fault::NotFound(s@),
    }
}

/// Why a command for a conversation was refused.
#[derive(Debug)]
pub enum Refusal {
    NoSuchAgent,
    NotPermitted(String),
    Busy(String),
    Failed(String),
}

/// What a plugin is told of a command that was refused.
pub open spec fn refused_as(r: Refusal, session: Seq<char>) -> Fault {
    match r {
        Refusal::NoSuchAgent => Fault::NotFound("conversation "@ + session),
        Refusal::NotPermitted(s) => Fault::Denied(s@),
        Refusal::Busy(s) => Fault::InvalidArgument(s@),
        Refusal::Failed(s) => Fault::InvalidArgument(s@),
    }
}

/// What a plugin is told of a command that was refused.
pub fn refused(r: &Refusal, session: &str) -> (e: ApiError)
    ensures
        e@ == refused_as(*r, session@),
{
    match r {
        Refusal::NoSuchAgent => ApiError::NotFound(crate::words::concat("conversation ", session)),
        Refusal::NotPermitted(s) => ApiError::Denied(s.clone()),
        Refusal::Busy(s) => ApiError::InvalidArgument(s.clone()),
        Refusal::Failed(s) => ApiError::InvalidArgument(s.clone()),
    }
}

// ---- answering --------------------------------------------------------------

/// What is known when a call is answered.
#[derive(Debug)]
pub struct Known {
    /// The plugin that asks.
    pub plugin: String,
    /// The call as it reads in a log.
    pub log: String,
    /// The swarm is running.
    pub swarm: bool,
    /// A driver serves the instance that is named.
    pub served: bool,
    /// The machine that is named is in the configuration file.
    pub in_config: bool,
    /// The plugin registered a driver that serves the instance that is named.
    pub owns: bool,
    /// What is named is a directory.
    pub is_dir: bool,
    /// The conversation that is named is the one on screen.
    pub on_screen: bool,
    /// There is a conversation of that name.
    pub found: bool,
    /// Plugins have been looked for.
    pub discovered: bool,
    /// Why a command was refused.
    pub refusal: Option<Refusal>,
    /// What the store would not do.
    pub store: Option<StoreError>,
    /// Why a tool was not taken.
    pub tool: Option<ApiError>,
    /// The home directory, where there is one.
    pub home: Option<String>,
    /// The machine that is named, where it has been met and not paired with.
    pub stranger: Option<Stranger>,
}

pub open spec fn done(does: Seq<Do>, given: Given) -> Answer {
    Answer { does, reply: Ok(given) }
}

pub open spec fn failed(fault: Fault) -> Answer {
    Answer { does: seq![], reply: Err(fault) }
}

fn ok(does: Vec<Do>, given: Given) -> (r: Outcome)
    ensures
        r@ == done(does@, given),
{
    Outcome { does, reply: Ok(given) }
}

fn err(e: ApiError) -> (r: Outcome)
    ensures
        r@ == failed(e@),
{
    let r = Outcome { does: Vec::new(), reply: Err(e) };
    assert(r.does@ =~= seq![]);
    r
}

/// What happens before a call can be answered: what the answer depends on is asked for, and what
/// has to be true by then is made true.
pub open spec fn first_does(call: Call, k: Known) -> Seq<Do> {
    match call {
        Call::AgentSend => seq![Do::LoadPictures],
        Call::ChatAttach => seq![Do::LoadPictures],
        Call::AgentCommand(_) => seq![Do::ApplyCommand],
        Call::SessionNew(_, _, activate) => if !k.is_dir {
            seq![]
        } else if activate {
            seq![Do::RememberRepo, Do::NewSession, Do::Switch]
        } else {
            seq![Do::RememberRepo, Do::NewSession]
        },
        Call::SessionSwitch => seq![Do::Switch],
        Call::SessionClose => (if k.on_screen {
            seq![Do::EnsureSomewhere]
        } else {
            seq![]
        }) + seq![Do::EndTurn, Do::ForgetCommands, Do::CloseDrivers, Do::Remove],
        Call::SessionArchive(archived) => (if archived && k.on_screen {
            seq![Do::EnsureSomewhere]
        } else {
            seq![]
        }) + seq![Do::Archive],
        Call::SessionRename => seq![Do::Rename],
        Call::ToolRegister => seq![Do::RegisterTool],
        _ => seq![],
    }
}

/// What happens before a call can be answered.
pub fn before(call: &Call, k: &Known) -> (r: Vec<Do>)
    ensures
        r@ == first_does(*call, *k),
{
    let r: Vec<Do> = match call {
        Call::AgentSend => vec![Do::LoadPictures],
        Call::ChatAttach => vec![Do::LoadPictures],
        Call::AgentCommand(_) => vec![Do::ApplyCommand],
        Call::SessionNew(_, _, activate) => if !k.is_dir {
            Vec::new()
        } else if *activate {
            vec![Do::RememberRepo, Do::NewSession, Do::Switch]
        } else {
            vec![Do::RememberRepo, Do::NewSession]
        },
        Call::SessionSwitch => vec![Do::Switch],
        Call::SessionClose => if k.on_screen {
            vec![
                Do::EnsureSomewhere,
                // Closing is the one call that does stop a turn: there is about to be nowhere to
                // put its answer.
                Do::EndTurn,
                Do::ForgetCommands,
                Do::CloseDrivers,
                Do::Remove,
            ]
        } else {
            vec![Do::EndTurn, Do::ForgetCommands, Do::CloseDrivers, Do::Remove]
        },
        // Archiving does not stop a turn. Putting a conversation away is about the list you read,
        // not about the work.
        Call::SessionArchive(archived) => if *archived && k.on_screen {
            vec![Do::EnsureSomewhere, Do::Archive]
        } else {
            vec![Do::Archive]
        },
        Call::SessionRename => vec![Do::Rename],
        Call::ToolRegister => vec![Do::RegisterTool],
        _ => Vec::new(),
    };
    assert(r@ =~= first_does(*call, *k));
    r
}

/// What a plugin is told when it calls for a folder too late.
pub open spec fn too_late(path: Seq<char>) -> Seq<char> {
    "rtp.add("@ + quoted_of(path)
        + ") came after plugin discovery; call it from your config, which runs first"@
}

/// What a plugin is told of a report for an instance that is not its own.
pub open spec fn not_its_own(instance: Seq<char>, plugin: Seq<char>) -> Seq<char> {
    "quota.report for "@ + instance + " (plugin "@ + plugin
        + " did not register a driver serving it)"@
}

/// What is drawn again where pictures have been put on the row.
pub open spec fn redrawn(pictures: Seq<Result<Attachment, String>>) -> Seq<Do> {
    if loaded(pictures).len() > 0 {
        seq![Do::RefreshComposer]
    } else {
        seq![]
    }
}

/// What answering a call comes to, once what goes before it has happened. `pictures` is what came of
/// each picture that was named.
pub open spec fn answered(call: Call, k: Known, pictures: Seq<Result<Attachment, String>>) -> Answer {
    match call {
        Call::AgentSend => match first_trouble(pictures) {
            Some(e) => Answer {
                does: redrawn(pictures),
                reply: Err(Fault::InvalidArgument(e)),
            },
            None => done(redrawn(pictures) + seq![Do::StartTurn], Given::Unit),
        },
        Call::AgentCommand(session) => match k.refusal {
            Some(r) => failed(refused_as(r, session@)),
            None => done(seq![], Given::MaybeSession),
        },
        Call::AgentCancel => done(seq![Do::CancelTurn], Given::Unit),
        Call::AgentGetSelection => done(seq![], Given::Selection),
        Call::AgentSetSelection(instance) => if k.served {
            done(seq![Do::SelectModel], Given::Unit)
        } else {
            failed(Fault::NotFound("no driver serves instance "@ + instance@))
        },
        Call::AgentDriverCommands => done(seq![], Given::DriverCommands),
        Call::AgentListInstances => done(seq![], Given::Instances),
        Call::ChatAttach => match first_trouble(pictures) {
            Some(e) => Answer {
                does: redrawn(pictures),
                reply: Err(Fault::InvalidArgument(e)),
            },
            None => done(redrawn(pictures), Given::Attachments),
        },
        Call::ChatAttachments => done(seq![], Given::Attachments),
        Call::ChatDetach(_) => done(seq![Do::RefreshComposer], Given::Attachments),
        Call::ChatDetachAll => done(seq![Do::RefreshComposer], Given::Attachments),
        Call::ChatSetDraft => done(seq![Do::SetDraft, Do::RefreshComposer], Given::Unit),
        Call::StateGet => done(seq![], Given::Json),
        Call::StateSet(_, _) => done(seq![Do::WriteState], Given::Unit),
        Call::StateDelete(_) => done(seq![Do::DropState], Given::Unit),
        Call::VarGet => done(seq![], Given::Json),
        Call::VarSet(_, _, _) => done(seq![Do::WriteVar, Do::Broadcast], Given::Unit),
        Call::VarDelete(_, _) => done(seq![Do::DropVar, Do::Broadcast], Given::Unit),
        Call::VarAll => done(seq![], Given::Vars),
        Call::SwarmSelf => done(seq![], Given::SwarmSelf),
        Call::SwarmNodes => done(seq![], Given::SwarmNodes),
        Call::SwarmAgents => done(seq![], Given::SwarmAgents),
        Call::SwarmHostsOf => done(seq![], Given::Names),
        Call::SwarmSubscribe => if k.swarm {
            done(seq![Do::Subscribe], Given::Unit)
        } else {
            failed(Fault::NotFound("the swarm is not running"@))
        },
        Call::SwarmUnsubscribe => done(
            if k.swarm {
                seq![Do::Unsubscribe]
            } else {
                seq![]
            },
            Given::Unit,
        ),
        Call::SwarmStrangers => done(seq![], Given::SwarmStrangers),
        Call::SwarmPair(_, _, _) => if k.swarm {
            done(
                seq![Do::Pair, Do::ForgetStranger, Do::SayPaired, Do::Broadcast],
                Given::Unit,
            )
        } else {
            failed(Fault::NotFound("the swarm is not running"@))
        },
        Call::SwarmUnpair => if !k.swarm {
            failed(Fault::NotFound("the swarm is not running"@))
        } else if k.in_config {
            failed(
                Fault::Denied(
                    "that machine is in your config file; remove its `[[swarm.peers]]` entry"@,
                ),
            )
        } else {
            done(seq![Do::Unpair, Do::Broadcast], Given::Unit)
        },
        Call::SwarmProbe => failed(Fault::Internal("swarm.probe is answered asynchronously"@)),
        Call::SwarmCommand => failed(Fault::Internal("swarm.command is answered asynchronously"@)),
        Call::QuotaList => done(seq![], Given::Quotas),
        Call::QuotaRefresh => done(seq![Do::RefreshQuota], Given::Unit),
        Call::QuotaReport(instance) => if k.owns {
            done(seq![Do::TakeQuota], Given::Unit)
        } else {
            failed(Fault::NotPermitted(not_its_own(instance@, k.plugin@)))
        },
        Call::QuotaHistory => done(seq![], Given::QuotaHistory),
        Call::EventEmit(_, _) => done(seq![Do::Broadcast], Given::Unit),
        Call::SessionList => done(seq![], Given::Sessions),
        Call::SessionCurrent => done(seq![], Given::Session),
        Call::SessionNew(cwd, _, activate) => if !k.is_dir {
            failed(Fault::NotFound("directory "@ + cwd@))
        } else if activate && k.store is Some {
            failed(Fault::NotFound(k.store->0.says()))
        } else if activate {
            done(seq![Do::WorkIn, Do::EnterSession, Do::SaveAll], Given::Session)
        } else {
            done(seq![Do::SaveAll], Given::Session)
        },
        Call::SessionSwitch => match k.store {
            Some(e) => failed(Fault::NotFound(e.says())),
            None => done(seq![Do::WorkIn, Do::EnterSession], Given::Unit),
        },
        Call::SessionClose => match k.store {
            Some(e) => failed(store_fault(e)),
            None => done(
                seq![Do::ForgetFile, Do::ForgetVars] + (if k.on_screen {
                    seq![Do::WorkIn, Do::EnterSession]
                } else {
                    seq![]
                }) + seq![Do::SaveAll],
                Given::Unit,
            ),
        },
        Call::SessionArchive(archived) => match k.store {
            Some(e) => failed(store_fault(e)),
            None => done(
                (if archived && k.on_screen {
                    seq![Do::WorkIn, Do::EnterSession]
                } else {
                    seq![]
                }) + seq![Do::SaveAll],
                Given::Unit,
            ),
        },
        Call::SessionRename => match k.store {
            Some(e) => failed(Fault::NotFound(e.says())),
            None => done(seq![Do::RefreshStatus, Do::SaveAll], Given::Unit),
        },
        Call::SessionMessages(session) => if session is None || k.found {
            done(seq![], Given::Messages)
        } else {
            failed(Fault::NotFound("session "@ + session->0@))
        },
        Call::ProviderCredentials => done(seq![], Given::Credentials),
        Call::ProviderForgetCredential(_) => done(seq![Do::ForgetKey, Do::SayForgotten], Given::Unit),
        Call::ProviderSetCredential => failed(
            Fault::Internal("credential prompts are answered by the host loop"@),
        ),
        Call::ProviderRegisterDriver => done(
            seq![Do::RegisterDriver, Do::RememberDriver, Do::ApplyPendingModel],
            Given::Unit,
        ),
        Call::ProviderEmit => done(seq![Do::EmitProvider], Given::Unit),
        Call::PermissionGetMode => done(seq![], Given::PermissionMode),
        Call::PermissionSetMode => done(seq![Do::SetPermissionMode], Given::PermissionMode),
        Call::HintSet(_, _, _, _) => done(seq![Do::RefreshComposer], Given::Unit),
        Call::HintClear(_) => done(seq![Do::RefreshComposer], Given::Unit),
        Call::StatusSet(_, _) => done(seq![Do::RefreshStatus], Given::Unit),
        Call::StatusClear(_) => done(seq![Do::RefreshStatus], Given::Unit),
        Call::ToolRegister => match k.tool {
            Some(e) => failed(e@),
            None => done(seq![], Given::Unit),
        },
        Call::ToolUnregister => done(seq![Do::UnregisterTool], Given::Unit),
        Call::ToolList => done(seq![], Given::Tools),
        Call::HookRegister(_) => done(seq![Do::RegisterHook], Given::Unit),
        Call::HookUnregister => done(seq![Do::UnregisterHook], Given::Unit),
        Call::RtpAdd(path) => if k.discovered {
            failed(Fault::InvalidArgument(too_late(path@)))
        } else {
            done(seq![], Given::Unit)
        },
        Call::RtpList => done(seq![], Given::Paths),
        _ => failed(Fault::Internal("unroutable call: "@ + k.log@)),
    }
}

fn none(given: Given) -> (r: Outcome)
    ensures
        r@ == done(seq![], given),
{
    let r = Outcome { does: Vec::new(), reply: Ok(given) };
    assert(r.does@ =~= seq![]);
    r
}

fn one(a: Do, given: Given) -> (r: Outcome)
    ensures
        r@ == done(seq![a], given),
{
    let r = Outcome { does: vec![a], reply: Ok(given) };
    assert(r.does@ =~= seq![a]);
    r
}

fn two(a: Do, b: Do, given: Given) -> (r: Outcome)
    ensures
        r@ == done(seq![a, b], given),
{
    let r = Outcome { does: vec![a, b], reply: Ok(given) };
    assert(r.does@ =~= seq![a, b]);
    r
}

fn three(a: Do, b: Do, c: Do, given: Given) -> (r: Outcome)
    ensures
        r@ == done(seq![a, b, c], given),
{
    let r = Outcome { does: vec![a, b, c], reply: Ok(given) };
    assert(r.does@ =~= seq![a, b, c]);
    r
}

fn not_found(what: &str) -> (r: Outcome)
    ensures
        r@ == failed(Fault::NotFound(what@)),
{
    err(ApiError::NotFound(what.to_owned()))
}

fn internal(what: &str) -> (r: Outcome)
    ensures
        r@ == failed(Fault::Internal(what@)),
{
    err(ApiError::Internal(what.to_owned()))
}

/// Text as it is written in a program: between quotation marks, with what would end it or could not
/// be seen escaped.
pub uninterp spec fn quoted_of(s: Seq<char>) -> Seq<char>;

/// The `Debug` form that `std` gives a `str`: between quotation marks, and escaped. It is a function
/// of the text alone, and is named here rather than stated, because what is escaped follows tables
/// of characters.
#[verifier::external_body]
pub(crate) fn quoted(s: &str) -> (r: String)
    ensures
        r@ == quoted_of(s@),
{
    format!("{s:?}")
}

/// What a plugin is told when it calls for a folder after plugins were looked for.
fn say_too_late(path: &str) -> (r: String)
    ensures
        r@ == too_late(path@),
{
    let mut r = "rtp.add(".to_owned();
    r.push_str(quoted(path).as_str());
    r.push_str(") came after plugin discovery; call it from your config, which runs first");
    r
}

fn say_not_its_own(instance: &str, plugin: &str) -> (r: String)
    ensures
        r@ == not_its_own(instance@, plugin@),
{
    let mut r = "quota.report for ".to_owned();
    r.push_str(instance);
    r.push_str(" (plugin ");
    r.push_str(plugin);
    r.push_str(" did not register a driver serving it)");
    r
}

/// Calls about conversations.
fn session_call(call: &Call, k: &Known) -> (r: Outcome)
    requires
        call is SessionNew || call is SessionSwitch || call is SessionClose || call is SessionArchive
            || call is SessionRename || call is SessionMessages,
    ensures
        forall|v: Seq<Result<Attachment, String>>| r@ == #[trigger] answered(*call, *k, v),
{
    match call {
        Call::SessionNew(cwd, _, activate) => {
            if !k.is_dir {
                return not_found(concat("directory ", cwd.as_str()).as_str());
            }
            if !*activate {
                return one(Do::SaveAll, Given::Session);
            }
            match &k.store {
                Some(e) => err(e.missing()),
                // The banner names the directory, and the tools have to be pointed at it before the
                // first turn rather than after it.
                None => three(Do::WorkIn, Do::EnterSession, Do::SaveAll, Given::Session),
            }
        },
        // Switching is never refused while a turn is running. A turn belongs to its conversation.
        Call::SessionSwitch => match &k.store {
            Some(e) => err(e.missing()),
            None => two(Do::WorkIn, Do::EnterSession, Given::Unit),
        },
        Call::SessionClose => match &k.store {
            Some(e) => err(e.told()),
            None => {
                let does = if k.on_screen {
                    vec![Do::ForgetFile, Do::ForgetVars, Do::WorkIn, Do::EnterSession, Do::SaveAll]
                } else {
                    vec![Do::ForgetFile, Do::ForgetVars, Do::SaveAll]
                };
                assert(does@ =~= seq![Do::ForgetFile, Do::ForgetVars] + (if k.on_screen {
                    seq![Do::WorkIn, Do::EnterSession]
                } else {
                    seq![]
                }) + seq![Do::SaveAll]);
                ok(does, Given::Unit)
            },
        },
        Call::SessionArchive(archived) => match &k.store {
            Some(e) => err(e.told()),
            None => {
                let does = if *archived && k.on_screen {
                    vec![Do::WorkIn, Do::EnterSession, Do::SaveAll]
                } else {
                    vec![Do::SaveAll]
                };
                assert(does@ =~= (if *archived && k.on_screen {
                    seq![Do::WorkIn, Do::EnterSession]
                } else {
                    seq![]
                }) + seq![Do::SaveAll]);
                ok(does, Given::Unit)
            },
        },
        Call::SessionRename => match &k.store {
            Some(e) => err(e.missing()),
            None => two(Do::RefreshStatus, Do::SaveAll, Given::Unit),
        },
        Call::SessionMessages(session) => match session {
            None => none(Given::Messages),
            Some(id) => if k.found {
                none(Given::Messages)
            } else {
                not_found(concat("session ", id.as_str()).as_str())
            },
        },
        _ => internal(""),
    }
}

/// Calls about other machines.
fn swarm_call(call: &Call, k: &Known) -> (r: Outcome)
    requires
        call is SwarmSubscribe || call is SwarmUnsubscribe || call is SwarmPair
            || call is SwarmUnpair,
    ensures
        forall|v: Seq<Result<Attachment, String>>| r@ == #[trigger] answered(*call, *k, v),
{
    match call {
        Call::SwarmSubscribe => if k.swarm {
            one(Do::Subscribe, Given::Unit)
        } else {
            not_found("the swarm is not running")
        },
        Call::SwarmUnsubscribe => if k.swarm {
            one(Do::Unsubscribe, Given::Unit)
        } else {
            none(Given::Unit)
        },
        Call::SwarmPair(_, _, _) => if k.swarm {
            let does = vec![Do::Pair, Do::ForgetStranger, Do::SayPaired, Do::Broadcast];
            assert(does@ =~= seq![Do::Pair, Do::ForgetStranger, Do::SayPaired, Do::Broadcast]);
            ok(does, Given::Unit)
        } else {
            not_found("the swarm is not running")
        },
        // Refused rather than silently ignored for a machine the configuration declared: that line
        // would come back on the next reload.
        _ => if !k.swarm {
            not_found("the swarm is not running")
        } else if k.in_config {
            err(
                ApiError::Denied(
                    "that machine is in your config file; remove its `[[swarm.peers]]` entry".to_owned(),
                ),
            )
        } else {
            two(Do::Unpair, Do::Broadcast, Given::Unit)
        },
    }
}

/// The answer to a call that brings no pictures.
pub fn answer(call: &Call, k: &Known) -> (r: Outcome)
    requires
        !(call is AgentSend || call is ChatAttach),
    ensures
        forall|v: Seq<Result<Attachment, String>>| r@ == #[trigger] answered(*call, *k, v),
{
    match call {
        Call::AgentCommand(session) => match &k.refusal {
            Some(r) => err(refused(r, session.as_str())),
            None => none(Given::MaybeSession),
        },
        Call::AgentCancel => one(Do::CancelTurn, Given::Unit),
        Call::AgentGetSelection => none(Given::Selection),
        Call::AgentSetSelection(instance) => if k.served {
            one(Do::SelectModel, Given::Unit)
        } else {
            not_found(concat("no driver serves instance ", instance.as_str()).as_str())
        },
        Call::AgentDriverCommands => none(Given::DriverCommands),
        Call::AgentListInstances => none(Given::Instances),
        Call::ChatAttachments => none(Given::Attachments),
        Call::ChatDetach(_) => one(Do::RefreshComposer, Given::Attachments),
        Call::ChatDetachAll => one(Do::RefreshComposer, Given::Attachments),
        Call::ChatSetDraft => two(Do::SetDraft, Do::RefreshComposer, Given::Unit),
        // Keyed by the caller, which the plugin does not get to choose.
        Call::StateGet => none(Given::Json),
        Call::StateSet(_, _) => one(Do::WriteState, Given::Unit),
        Call::StateDelete(_) => one(Do::DropState, Given::Unit),
        // Not keyed by the caller: a variable describes a project or a conversation.
        Call::VarGet => none(Given::Json),
        Call::VarSet(_, _, _) => two(Do::WriteVar, Do::Broadcast, Given::Unit),
        Call::VarDelete(_, _) => two(Do::DropVar, Do::Broadcast, Given::Unit),
        Call::VarAll => none(Given::Vars),
        Call::SwarmSelf => none(Given::SwarmSelf),
        Call::SwarmNodes => none(Given::SwarmNodes),
        Call::SwarmAgents => none(Given::SwarmAgents),
        Call::SwarmHostsOf => none(Given::Names),
        Call::SwarmStrangers => none(Given::SwarmStrangers),
        Call::SwarmSubscribe => swarm_call(call, k),
        Call::SwarmUnsubscribe => swarm_call(call, k),
        Call::SwarmPair(_, _, _) => swarm_call(call, k),
        Call::SwarmUnpair => swarm_call(call, k),
        Call::SwarmProbe => internal("swarm.probe is answered asynchronously"),
        Call::SwarmCommand => internal("swarm.command is answered asynchronously"),
        Call::QuotaList => none(Given::Quotas),
        Call::QuotaRefresh => one(Do::RefreshQuota, Given::Unit),
        // Its own instances only: a figure it is possible to spoof is a figure that should not be
        // drawn as fact.
        Call::QuotaReport(instance) => if k.owns {
            one(Do::TakeQuota, Given::Unit)
        } else {
            err(
                ApiError::NotPermitted(say_not_its_own(instance.as_str(), k.plugin.as_str())),
            )
        },
        Call::QuotaHistory => none(Given::QuotaHistory),
        Call::EventEmit(_, _) => one(Do::Broadcast, Given::Unit),
        Call::SessionList => none(Given::Sessions),
        Call::SessionCurrent => none(Given::Session),
        Call::SessionNew(_, _, _) => session_call(call, k),
        Call::SessionSwitch => session_call(call, k),
        Call::SessionClose => session_call(call, k),
        Call::SessionArchive(_) => session_call(call, k),
        Call::SessionRename => session_call(call, k),
        Call::SessionMessages(_) => session_call(call, k),
        Call::ProviderCredentials => none(Given::Credentials),
        Call::ProviderForgetCredential(_) => two(Do::ForgetKey, Do::SayForgotten, Given::Unit),
        Call::ProviderSetCredential => internal("credential prompts are answered by the host loop"),
        // A model that was held for this instance is applied now, not when the last plugin
        // finishes loading.
        Call::ProviderRegisterDriver => three(
            Do::RegisterDriver,
            Do::RememberDriver,
            Do::ApplyPendingModel,
            Given::Unit,
        ),
        Call::ProviderEmit => one(Do::EmitProvider, Given::Unit),
        Call::PermissionGetMode => none(Given::PermissionMode),
        Call::PermissionSetMode => one(Do::SetPermissionMode, Given::PermissionMode),
        Call::HintSet(_, _, _, _) => one(Do::RefreshComposer, Given::Unit),
        Call::HintClear(_) => one(Do::RefreshComposer, Given::Unit),
        Call::StatusSet(_, _) => one(Do::RefreshStatus, Given::Unit),
        Call::StatusClear(_) => one(Do::RefreshStatus, Given::Unit),
        Call::ToolRegister => match &k.tool {
            Some(e) => err(e.again()),
            None => none(Given::Unit),
        },
        Call::ToolUnregister => one(Do::UnregisterTool, Given::Unit),
        Call::ToolList => none(Given::Tools),
        Call::HookRegister(_) => one(Do::RegisterHook, Given::Unit),
        Call::HookUnregister => one(Do::UnregisterHook, Given::Unit),
        // Silently ignoring this would leave somebody with a plugin that never loads, and no reason
        // why.
        Call::RtpAdd(path) => if k.discovered {
            err(ApiError::InvalidArgument(say_too_late(path.as_str())))
        } else {
            none(Given::Unit)
        },
        Call::RtpList => none(Given::Paths),
        _ => internal(concat("unroutable call: ", k.log.as_str()).as_str()),
    }
}

/// Where a call goes.
#[derive(Debug, Clone, Copy, PartialEq, Eq, Structural)]
pub enum Route {
    Editor,
    Agent,
}

/// What a plugin is told that did not declare what it wants.
pub open spec fn undeclared(name: Seq<char>, plugin: Seq<char>) -> Seq<char> {
    name + " (plugin "@ + plugin + " did not declare it \u{2014} add \""@ + name
        + "\" to the permissions list in its plugin.toml)"@
}

/// Route a plugin's call: what is about the screen to the editor, and the rest to the agent's side.
/// One that needs a permission nobody declared goes nowhere, and is told how to put that right.
pub fn dispatch(plugin: &str, declared: &Vec<PluginPermission>, call: &Call) -> (r: Result<
    Route,
    ApiError,
>)
    ensures
        match wanted(*call) {
            Some(want) if !allowed(plugin@, declared@, want) => r is Err && r->Err_0@
                == Fault::NotPermitted(undeclared(want.called(), plugin@)),
            _ => r == Ok::<Route, ApiError>(
                if call is Screen || call is SurfaceClaim {
                    Route::Editor
                } else {
                    Route::Agent
                },
            ),
        },
{
    if let Some(want) = permission_for(call) {
        if !may(plugin, declared, want) {
            let mut text = want.name().to_owned();
            text.push_str(" (plugin ");
            text.push_str(plugin);
            text.push_str(" did not declare it \u{2014} add \"");
            text.push_str(want.name());
            text.push_str("\" to the permissions list in its plugin.toml)");
            return Err(ApiError::NotPermitted(text));
        }
    }
    match call {
        Call::Screen => Ok(Route::Editor),
        Call::SurfaceClaim => Ok(Route::Editor),
        _ => Ok(Route::Agent),
    }
}

/// A call that is refused does nothing more than it had to do to find out: where pictures were read
/// before one that could not be had, they are on the row, and it is drawn.
pub proof fn a_refused_call_does_nothing_more(
    call: Call,
    k: Known,
    pictures: Seq<Result<Attachment, String>>,
)
    requires
        answered(call, k, pictures).reply is Err,
    ensures
        answered(call, k, pictures).does == (if call is AgentSend || call is ChatAttach {
            redrawn(pictures)
        } else {
            seq![]
        }),
{
}

/// Closing a conversation is the one call that ends a turn: nothing else takes work away from
/// something that is still running.
pub proof fn only_closing_ends_a_turn(
    call: Call,
    k: Known,
    pictures: Seq<Result<Attachment, String>>,
)
    ensures
        (first_does(call, k).contains(Do::EndTurn) || answered(call, k, pictures).does.contains(
            Do::EndTurn,
        )) == (call is SessionClose),
{
    let v = first_does(call, k);
    if call is SessionClose {
        let i: int = if k.on_screen {
            1
        } else {
            0
        };
        assert(v[i] == Do::EndTurn);
    }
}

// ---- what the calls are about -----------------------------------------------

/// What a plugin sees of a picture.
#[derive(Debug)]
pub struct AttachmentInfo {
    pub path: String,
    pub media_type: String,
    pub width: u32,
    pub height: u32,
    pub bytes: u32,
}

/// A number of bytes, as far as it can be counted here.
pub open spec fn counted(n: nat) -> nat {
    if n > u32::MAX {
        u32::MAX as nat
    } else {
        n
    }
}

/// Whether this is what a plugin sees of a picture.
pub open spec fn seen_as(i: AttachmentInfo, a: Attachment) -> bool {
    i.path@ == a.path@ && i.media_type@ == a.media_type@ && i.width == a.width && i.height
        == a.height && i.bytes == counted(a.bytes as nat)
}

/// What a plugin sees of a picture.
pub fn info_of(a: &Attachment) -> (r: AttachmentInfo)
    ensures
        seen_as(r, *a),
{
    let bytes = if a.bytes > 0xffff_ffff {
        0xffff_ffff
    } else {
        a.bytes as u32
    };
    AttachmentInfo {
        path: a.path.clone(),
        media_type: a.media_type.clone(),
        width: a.width,
        height: a.height,
        bytes,
    }
}

/// What a plugin sees of some pictures.
pub fn infos(v: &Vec<Attachment>) -> (r: Vec<AttachmentInfo>)
    ensures
        r@.len() == v@.len(),
        forall|i: int| 0 <= i < v@.len() ==> seen_as(#[trigger] r@[i], v@[i]),
{
    let mut r: Vec<AttachmentInfo> = Vec::new();
    let mut i: usize = 0;
    while i < v.len()
        invariant
            i <= v@.len(),
            r@.len() == i,
            forall|j: int| 0 <= j < i ==> seen_as(#[trigger] r@[j], v@[j]),
        decreases v@.len() - i,
    {
        r.push(info_of(&v[i]));
        i = i + 1;
    }
    r
}

/// The pictures before the first that could not be had.
pub open spec fn loaded(v: Seq<Result<Attachment, String>>) -> Seq<Attachment>
    decreases v.len(),
{
    if v.len() == 0 || v[0] is Err {
        seq![]
    } else {
        seq![v[0]->Ok_0] + loaded(v.skip(1))
    }
}

/// Whether one of some pictures could not be had, and why the first of them could not.
pub open spec fn first_trouble(v: Seq<Result<Attachment, String>>) -> Option<Seq<char>>
    decreases v.len(),
{
    if v.len() == 0 {
        None
    } else {
        match v[0] {
            Err(e) => Some(e@),
            Ok(_) => first_trouble(v.skip(1)),
        }
    }
}

/// Put a plugin's own pictures on the row, so that they travel with whatever is already there, and
/// in the order they were added. It stops at the first that could not be had, which is what the
/// plugin is told of.
pub fn attach_each(row: &mut Vec<Attachment>, pictures: Vec<Result<Attachment, String>>) -> (r: Option<
    String,
>)
    ensures
        final(row)@ == old(row)@ + loaded(pictures@),
        match r {
            Some(e) => first_trouble(pictures@) == Some(e@),
            None => first_trouble(pictures@) is None,
        },
{
    let ghost all = pictures@;
    let ghost given = row@;
    let mut left = pictures;
    assert(row@ + loaded(left@) =~= given + loaded(all));
    while left.len() > 0
        invariant
            given == old(row)@,
            all == pictures@,
            row@ + loaded(left@) == given + loaded(all),
            first_trouble(left@) == first_trouble(all),
        decreases left@.len(),
    {
        let ghost before = left@;
        let ghost had = row@;
        match left.remove(0) {
            Ok(a) => {
                row.push(a);
                assert(left@ =~= before.skip(1));
                assert(row@ + loaded(left@) =~= had + (seq![a] + loaded(before.skip(1))));
            },
            Err(e) => {
                assert(had + loaded(before) =~= had);
                return Some(e);
            },
        }
    }
    assert(row@ + loaded(left@) =~= row@);
    None
}

/// Take a picture off the row: the one that is named, or the newest. One that is not there is not
/// an error, since the row may have gone out with a send in between.
pub fn detach(row: &mut Vec<Attachment>, index: Option<u32>) -> (r: Option<Attachment>)
    ensures
        match index {
            Some(i) => if i < old(row)@.len() {
                r == Some(old(row)@[i as int]) && final(row)@ == old(row)@.remove(i as int)
            } else {
                r is None && final(row)@ == old(row)@
            },
            None => if old(row)@.len() > 0 {
                r == Some(old(row)@.last()) && final(row)@ == old(row)@.drop_last()
            } else {
                r is None && final(row)@ == old(row)@
            },
        },
{
    match index {
        Some(i) => {
            let i = i as usize;
            if i < row.len() {
                Some(row.remove(i))
            } else {
                None
            }
        },
        None => row.pop(),
    }
}

/// The name under which something of a plugin's is kept, so that two plugins choosing the same key
/// cannot fight.
pub fn namespaced(plugin: &str, key: &str) -> (r: String)
    ensures
        r@ == kept_under(plugin@, key@),
{
    let mut r = plugin.to_owned();
    r.push_str(":");
    r.push_str(key);
    r
}

/// The name under which something of a plugin's is kept.
pub open spec fn kept_under(plugin: Seq<char>, key: Seq<char>) -> Seq<char> {
    plugin + ":"@ + key
}

/// Two plugins choosing the same key, or any two keys, cannot fight. A plugin's name holds no colon.
pub proof fn two_plugins_cannot_fight(
    p: Seq<char>,
    k: Seq<char>,
    q: Seq<char>,
    j: Seq<char>,
)
    requires
        !p.contains(':'),
        !q.contains(':'),
        kept_under(p, k) == kept_under(q, j),
    ensures
        p == q,
        k == j,
{
    reveal_strlit(":");
    let a = kept_under(p, k);
    let b = kept_under(q, j);
    assert(a[p.len() as int] == ':');
    assert(b[q.len() as int] == ':');
    if p.len() < q.len() {
        assert(b[p.len() as int] == q[p.len() as int]);
        assert(q.contains(q[p.len() as int]));
    }
    if q.len() < p.len() {
        assert(a[q.len() as int] == p[q.len() as int]);
        assert(p.contains(p[q.len() as int]));
    }
    assert(p =~= a.take(p.len() as int));
    assert(q =~= b.take(q.len() as int));
    assert(k =~= a.skip(p.len() as int + 1));
    assert(j =~= b.skip(q.len() as int + 1));
}

/// Whether there is a conversation to go to, other than the one being left.
pub open spec fn alone(listed: Seq<String>, leaving: Seq<char>) -> bool {
    forall|i: int| 0 <= i < listed.len() ==> (#[trigger] listed[i])@ == leaving
}

/// Whether leaving a conversation has nowhere to land, and one has to be made for it. What is
/// archived is not listed: landing in something you put away is the one destination that is
/// definitely wrong.
pub fn ensure_somewhere_to_go(listed: &Vec<String>, leaving: &str) -> (make: bool)
    ensures
        make == alone(listed@, leaving@),
{
    let mut i: usize = 0;
    while i < listed.len()
        invariant
            i <= listed@.len(),
            forall|j: int| 0 <= j < i ==> (#[trigger] listed@[j])@ == leaving@,
        decreases listed@.len() - i,
    {
        if !same_text(listed[i].as_str(), leaving) {
            return false;
        }
        i = i + 1;
    }
    true
}

/// The name a conversation is given up front, with nothing round it. Blank is not a name.
pub fn new_session_titled(title: Option<&str>) -> (r: Option<String>)
    ensures
        match r {
            Some(t) => title is Some && !is_blank(title->0@) && t@ == trim_of(title->0@),
            None => title is None || is_blank(title->0@),
        },
{
    match title {
        None => None,
        Some(t) => {
            proof {
                lemma_trim_blank(t@);
            }
            let chars = chars_of(t);
            let cut = trim(chars.as_slice());
            if cut.len() == 0 {
                None
            } else {
                Some(string_of(cut))
            }
        },
    }
}

/// The name a plugin gives a conversation, as it gave it. Blank is not a name.
pub fn title_given(title: Option<String>) -> (r: Option<String>)
    ensures
        r == (if title is Some && !is_blank(title->0@) {
            title
        } else {
            None
        }),
{
    match title {
        None => None,
        Some(t) => {
            proof {
                lemma_trim_blank(t@);
            }
            if trim(chars_of(t.as_str()).as_slice()).len() == 0 {
                None
            } else {
                Some(t)
            }
        },
    }
}

/// Some folders with one more: it is there once, however often it is named and however it is spelled.
pub open spec fn with_folder(dirs: Seq<Seq<char>>, one: Seq<char>) -> Seq<Seq<char>> {
    if is_among(dirs, one) {
        dirs
    } else {
        dirs.push(one)
    }
}

/// Whether `is` is some folders with the one that a path names, its leading `~` written out. Which
/// folder `~\` begins with depends on the platform.
pub open spec fn is_folder_added(
    was: Seq<Seq<char>>,
    path: Seq<char>,
    home: Option<Seq<char>>,
    is: Seq<Seq<char>>,
) -> bool {
    exists|one: Seq<char>|
        #![trigger with_folder(was, one)]
        {
            &&& is == with_folder(was, one)
            &&& !begins(path, seq!['~', '\\']) ==> one == at_home(path, home)
        }
}

/// The folders plugins are looked for in, with one more. A leading `~` is the home directory.
pub fn rtp_add(dirs: &mut Vec<String>, path: &str, home: Option<&str>)
    ensures
        is_folder_added(texts(old(dirs)@), path@, maybe(home), texts(final(dirs)@)),
{
    let expanded = expand_home(path, home);
    let ghost was = texts(dirs@);
    if path_among(dirs, expanded.as_str()) {
        assert(texts(dirs@) == with_folder(was, expanded@));
        return;
    }
    dirs.push(expanded);
    assert(texts(dirs@) =~= was.push(expanded@));
    assert(texts(dirs@) == with_folder(was, expanded@));
}

} // verus!
