//! What each call of a plugin is answered with, and what is done for it.

use crate::host::calls::{
    allowed, answered, first_does, first_trouble, loaded, refused_as, store_fault, wanted,
    with_folder, Call, Do, Fault, Given, Known, PluginPermission, Refusal, StoreError,
};
use crate::images::Attachment;
use crate::paths::spelling::is_same_path;
use vstd::prelude::*;

verus! {

/// Whether something is done for a call, before it is answered or with the answer.
pub open spec fn is_done(d: Do, call: Call, k: Known, v: Seq<Result<Attachment, String>>) -> bool {
    first_does(call, k).contains(d) || answered(call, k, v).does.contains(d)
}

/// What has to happen before a conversation, a tool or a picture is what the call names is done for
/// that call alone.
pub proof fn what_comes_before_an_answer_is_for_its_call(
    call: Call,
    k: Known,
    v: Seq<Result<Attachment, String>>,
)
    ensures
        is_done(Do::LoadPictures, call, k, v) == (call is AgentSend || call is ChatAttach),
        is_done(Do::ApplyCommand, call, k, v) == (call is AgentCommand),
        is_done(Do::RememberRepo, call, k, v) == (call is SessionNew && k.is_dir),
        is_done(Do::NewSession, call, k, v) == (call is SessionNew && k.is_dir),
        is_done(Do::Switch, call, k, v) == (call is SessionSwitch || (call is SessionNew && k.is_dir
            && call->SessionNew_2)),
        is_done(Do::EnsureSomewhere, call, k, v) == (k.on_screen && (call is SessionClose || (
        call is SessionArchive && call->SessionArchive_0))),
        is_done(Do::ForgetCommands, call, k, v) == (call is SessionClose),
        is_done(Do::CloseDrivers, call, k, v) == (call is SessionClose),
        is_done(Do::Remove, call, k, v) == (call is SessionClose),
        is_done(Do::Archive, call, k, v) == (call is SessionArchive),
        is_done(Do::Rename, call, k, v) == (call is SessionRename),
        is_done(Do::RegisterTool, call, k, v) == (call is ToolRegister),
{
    lemma_done_first(call, k);
    lemma_done_after(call, k, v);
}

/// What is kept, dropped or told for a call is for that call alone, and for every call of its kind
/// that goes well.
pub proof fn what_is_kept_is_what_was_asked_for(
    call: Call,
    k: Known,
    v: Seq<Result<Attachment, String>>,
)
    ensures
        is_done(Do::WriteState, call, k, v) == (call is StateSet),
        is_done(Do::DropState, call, k, v) == (call is StateDelete),
        is_done(Do::WriteVar, call, k, v) == (call is VarSet),
        is_done(Do::DropVar, call, k, v) == (call is VarDelete),
        is_done(Do::Broadcast, call, k, v) == (call is VarSet || call is VarDelete
            || call is EventEmit || (k.swarm && (call is SwarmPair || (call is SwarmUnpair
            && !k.in_config)))),
        is_done(Do::StartTurn, call, k, v) == (call is AgentSend && first_trouble(v) is None),
        is_done(Do::CancelTurn, call, k, v) == (call is AgentCancel),
        is_done(Do::SelectModel, call, k, v) == (call is AgentSetSelection && k.served),
        is_done(Do::SetDraft, call, k, v) == (call is ChatSetDraft),
        is_done(Do::RefreshStatus, call, k, v) == (call is StatusSet || call is StatusClear || (
        call is SessionRename && k.store is None)),
        is_done(Do::RefreshComposer, call, k, v) == (call is ChatDetach || call is ChatDetachAll
            || call is ChatSetDraft || call is HintSet || call is HintClear || ((call is AgentSend
            || call is ChatAttach) && v.len() > 0 && v[0] is Ok)),
{
    lemma_done_first(call, k);
    lemma_done_after(call, k, v);
}

/// What is done with other machines, plans, keys, tools and hooks is for the call that asks for it
/// alone.
pub proof fn what_is_registered_is_what_was_asked_for(
    call: Call,
    k: Known,
    v: Seq<Result<Attachment, String>>,
)
    ensures
        is_done(Do::Subscribe, call, k, v) == (call is SwarmSubscribe && k.swarm),
        is_done(Do::Unsubscribe, call, k, v) == (call is SwarmUnsubscribe && k.swarm),
        is_done(Do::Pair, call, k, v) == (call is SwarmPair && k.swarm),
        is_done(Do::ForgetStranger, call, k, v) == (call is SwarmPair && k.swarm),
        is_done(Do::SayPaired, call, k, v) == (call is SwarmPair && k.swarm),
        is_done(Do::Unpair, call, k, v) == (call is SwarmUnpair && k.swarm && !k.in_config),
        is_done(Do::RefreshQuota, call, k, v) == (call is QuotaRefresh),
        is_done(Do::TakeQuota, call, k, v) == (call is QuotaReport && k.owns),
        is_done(Do::ForgetKey, call, k, v) == (call is ProviderForgetCredential),
        is_done(Do::SayForgotten, call, k, v) == (call is ProviderForgetCredential),
        is_done(Do::SetPermissionMode, call, k, v) == (call is PermissionSetMode),
        is_done(Do::UnregisterTool, call, k, v) == (call is ToolUnregister),
        is_done(Do::RegisterHook, call, k, v) == (call is HookRegister),
        is_done(Do::UnregisterHook, call, k, v) == (call is HookUnregister),
        is_done(Do::RegisterDriver, call, k, v) == (call is ProviderRegisterDriver),
        is_done(Do::RememberDriver, call, k, v) == (call is ProviderRegisterDriver),
        is_done(Do::ApplyPendingModel, call, k, v) == (call is ProviderRegisterDriver),
        is_done(Do::EmitProvider, call, k, v) == (call is ProviderEmit),
{
    lemma_done_first(call, k);
    lemma_done_after(call, k, v);
}

/// A conversation that is gone is forgotten wherever it was kept, every change to what there is is
/// saved, and whoever was looking at one that is left is taken to another.
pub proof fn a_conversation_that_is_left_is_left_for_another(
    call: Call,
    k: Known,
    v: Seq<Result<Attachment, String>>,
)
    ensures
        is_done(Do::ForgetFile, call, k, v) == (call is SessionClose && k.store is None),
        is_done(Do::ForgetVars, call, k, v) == (call is SessionClose && k.store is None),
        is_done(Do::WorkIn, call, k, v) == is_done(Do::EnterSession, call, k, v),
        is_done(Do::EnterSession, call, k, v) == (k.store is None && (call is SessionSwitch || (
        call is SessionNew && k.is_dir && call->SessionNew_2) || (call is SessionClose
            && k.on_screen) || (call is SessionArchive && call->SessionArchive_0 && k.on_screen))),
        is_done(Do::SaveAll, call, k, v) == ((k.store is None && (call is SessionClose
            || call is SessionArchive || call is SessionRename)) || (call is SessionNew && k.is_dir
            && (k.store is None || !call->SessionNew_2))),
{
    lemma_done_first(call, k);
    lemma_done_after(call, k, v);
}

proof fn lemma_done_first(call: Call, k: Known)
    ensures
        forall|d: Do| #[trigger]
            first_does(call, k).contains(d) == (match d {
                Do::LoadPictures => call is AgentSend || call is ChatAttach,
                Do::ApplyCommand => call is AgentCommand,
                Do::RememberRepo | Do::NewSession => call is SessionNew && k.is_dir,
                Do::Switch => call is SessionSwitch || (call is SessionNew && k.is_dir
                    && call->SessionNew_2),
                Do::EnsureSomewhere => k.on_screen && (call is SessionClose || (
                call is SessionArchive && call->SessionArchive_0)),
                Do::EndTurn
                | Do::ForgetCommands
                | Do::CloseDrivers
                | Do::Remove => call is SessionClose,
                Do::Archive => call is SessionArchive,
                Do::Rename => call is SessionRename,
                Do::RegisterTool => call is ToolRegister,
                _ => false,
            }),
{
    let f = first_does(call, k);
    match call {
        Call::SessionClose => {
            let a = if k.on_screen {
                seq![Do::EnsureSomewhere]
            } else {
                seq![]
            };
            let b = seq![Do::EndTurn, Do::ForgetCommands, Do::CloseDrivers, Do::Remove];
            assert(f == a + b);
            lemma_four(b);
            assert forall|d: Do| #[trigger] f.contains(d) == (a.contains(d) || b.contains(d)) by {
                lemma_in_both(a, b, d);
            }
            lemma_one_or_none(a);
        },
        Call::SessionArchive(archived) => {
            let a = if archived && k.on_screen {
                seq![Do::EnsureSomewhere]
            } else {
                seq![]
            };
            let b = seq![Do::Archive];
            assert(f == a + b);
            lemma_one_or_none(a);
            lemma_one_or_none(b);
            assert forall|d: Do| #[trigger] f.contains(d) == (a.contains(d) || b.contains(d)) by {
                lemma_in_both(a, b, d);
            }
        },
        _ => {
            lemma_four(f);
        },
    }
}

proof fn lemma_in_both(a: Seq<Do>, b: Seq<Do>, d: Do)
    ensures
        (a + b).contains(d) == (a.contains(d) || b.contains(d)),
{
    let s = a + b;
    if a.contains(d) {
        let i = choose|i: int| 0 <= i < a.len() && a[i] == d;
        assert(s[i] == d);
    }
    if b.contains(d) {
        let i = choose|i: int| 0 <= i < b.len() && b[i] == d;
        assert(s[a.len() + i] == d);
    }
    if s.contains(d) {
        let i = choose|i: int| 0 <= i < s.len() && s[i] == d;
        if i < a.len() {
            assert(a[i] == d);
        } else {
            assert(b[i - a.len()] == d);
        }
    }
}

proof fn lemma_one_or_none(a: Seq<Do>)
    requires
        a.len() <= 1,
    ensures
        forall|d: Do| #[trigger] a.contains(d) == (a.len() == 1 && a[0] == d),
{
    assert forall|d: Do| #[trigger] a.contains(d) == (a.len() == 1 && a[0] == d) by {
        if a.len() == 1 && a[0] == d {
            assert(a.contains(d));
        }
    }
}

proof fn lemma_four(a: Seq<Do>)
    requires
        a.len() <= 4,
    ensures
        forall|d: Do| #[trigger]
            a.contains(d) == ((a.len() > 0 && a[0] == d) || (a.len() > 1 && a[1] == d) || (a.len()
                > 2 && a[2] == d) || (a.len() > 3 && a[3] == d)),
{
    assert forall|d: Do| #[trigger]
        a.contains(d) == ((a.len() > 0 && a[0] == d) || (a.len() > 1 && a[1] == d) || (a.len() > 2
            && a[2] == d) || (a.len() > 3 && a[3] == d)) by {
        if a.len() > 0 && a[0] == d {
            assert(a.contains(d));
        }
        if a.len() > 1 && a[1] == d {
            assert(a.contains(d));
        }
        if a.len() > 2 && a[2] == d {
            assert(a.contains(d));
        }
        if a.len() > 3 && a[3] == d {
            assert(a.contains(d));
        }
    }
}

proof fn lemma_done_after(call: Call, k: Known, v: Seq<Result<Attachment, String>>)
    ensures
        forall|d: Do| #[trigger]
            answered(call, k, v).does.contains(d) == (match d {
                Do::StartTurn => call is AgentSend && first_trouble(v) is None,
                Do::CancelTurn => call is AgentCancel,
                Do::SelectModel => call is AgentSetSelection && k.served,
                Do::SetDraft => call is ChatSetDraft,
                Do::RefreshComposer => call is ChatDetach || call is ChatDetachAll
                    || call is ChatSetDraft || call is HintSet || call is HintClear || ((
                call is AgentSend || call is ChatAttach) && v.len() > 0 && v[0] is Ok),
                Do::RefreshStatus => call is StatusSet || call is StatusClear || (
                call is SessionRename && k.store is None),
                Do::WriteState => call is StateSet,
                Do::DropState => call is StateDelete,
                Do::WriteVar => call is VarSet,
                Do::DropVar => call is VarDelete,
                Do::Broadcast => call is VarSet || call is VarDelete || call is EventEmit || (
                k.swarm && (call is SwarmPair || (call is SwarmUnpair && !k.in_config))),
                Do::Subscribe => call is SwarmSubscribe && k.swarm,
                Do::Unsubscribe => call is SwarmUnsubscribe && k.swarm,
                Do::Pair | Do::ForgetStranger | Do::SayPaired => call is SwarmPair && k.swarm,
                Do::Unpair => call is SwarmUnpair && k.swarm && !k.in_config,
                Do::RefreshQuota => call is QuotaRefresh,
                Do::TakeQuota => call is QuotaReport && k.owns,
                Do::ForgetFile | Do::ForgetVars => call is SessionClose && k.store is None,
                Do::WorkIn | Do::EnterSession => k.store is None && (call is SessionSwitch || (
                call is SessionNew && k.is_dir && call->SessionNew_2) || (call is SessionClose
                    && k.on_screen) || (call is SessionArchive && call->SessionArchive_0
                    && k.on_screen)),
                Do::SaveAll => (k.store is None && (call is SessionClose || call is SessionArchive
                    || call is SessionRename)) || (call is SessionNew && k.is_dir && (
                k.store is None || !call->SessionNew_2)),
                Do::ForgetKey | Do::SayForgotten => call is ProviderForgetCredential,
                Do::SetPermissionMode => call is PermissionSetMode,
                Do::UnregisterTool => call is ToolUnregister,
                Do::RegisterHook => call is HookRegister,
                Do::UnregisterHook => call is HookUnregister,
                Do::RegisterDriver
                | Do::RememberDriver
                | Do::ApplyPendingModel => call is ProviderRegisterDriver,
                Do::EmitProvider => call is ProviderEmit,
                _ => false,
            }),
{
    let f = answered(call, k, v).does;
    match call {
        Call::SessionClose => {
            if k.store is None {
                let a = seq![Do::ForgetFile, Do::ForgetVars];
                let b = if k.on_screen {
                    seq![Do::WorkIn, Do::EnterSession]
                } else {
                    seq![]
                };
                let c = seq![Do::SaveAll];
                assert(f == a + b + c);
                lemma_four(a);
                lemma_four(b);
                lemma_four(c);
                assert forall|d: Do| #[trigger]
                    f.contains(d) == (a.contains(d) || b.contains(d) || c.contains(d)) by {
                    lemma_in_both(a, b, d);
                    lemma_in_both(a + b, c, d);
                }
            } else {
                lemma_four(f);
            }
        },
        Call::SessionArchive(archived) => {
            if k.store is None {
                let b = if archived && k.on_screen {
                    seq![Do::WorkIn, Do::EnterSession]
                } else {
                    seq![]
                };
                let c = seq![Do::SaveAll];
                assert(f == b + c);
                lemma_four(b);
                lemma_four(c);
                assert forall|d: Do| #[trigger] f.contains(d) == (b.contains(d) || c.contains(d)) by {
                    lemma_in_both(b, c, d);
                }
            } else {
                lemma_four(f);
            }
        },
        _ => {
            lemma_four(f);
        },
    }
}

/// Each thing that a plugin is given is given for the calls that ask for it, and for no other.
pub proof fn each_call_is_given_what_it_asked_for(
    call: Call,
    k: Known,
    v: Seq<Result<Attachment, String>>,
)
    requires
        answered(call, k, v).reply is Ok,
    ensures
        ({
            let given = answered(call, k, v).reply->Ok_0;
            &&& (given == Given::MaybeSession) == (call is AgentCommand)
            &&& (given == Given::Attachments) == (call is ChatAttach || call is ChatAttachments
                || call is ChatDetach || call is ChatDetachAll)
            &&& (given == Given::Selection) == (call is AgentGetSelection)
            &&& (given == Given::DriverCommands) == (call is AgentDriverCommands)
            &&& (given == Given::Instances) == (call is AgentListInstances)
            &&& (given == Given::Json) == (call is StateGet || call is VarGet)
            &&& (given == Given::Vars) == (call is VarAll)
            &&& (given == Given::SwarmSelf) == (call is SwarmSelf)
            &&& (given == Given::SwarmNodes) == (call is SwarmNodes)
            &&& (given == Given::SwarmAgents) == (call is SwarmAgents)
            &&& (given == Given::Names) == (call is SwarmHostsOf)
            &&& (given == Given::SwarmStrangers) == (call is SwarmStrangers)
            &&& (given == Given::Quotas) == (call is QuotaList)
            &&& (given == Given::QuotaHistory) == (call is QuotaHistory)
            &&& (given == Given::Sessions) == (call is SessionList)
            &&& (given == Given::Session) == (call is SessionCurrent || call is SessionNew)
            &&& (given == Given::Credentials) == (call is ProviderCredentials)
            &&& (given == Given::Messages) == (call is SessionMessages)
            &&& (given == Given::PermissionMode) == (call is PermissionGetMode
                || call is PermissionSetMode)
            &&& (given == Given::Tools) == (call is ToolList)
            &&& (given == Given::Paths) == (call is RtpList)
        }),
{
}

/// A call is refused where what it names is not there, where what it needs is not running or is not
/// the plugin's to do, and where nobody answers it; everything else goes well.
pub proof fn a_call_is_refused_for_a_reason(
    call: Call,
    k: Known,
    v: Seq<Result<Attachment, String>>,
)
    ensures
        answered(call, k, v).reply is Err == (match call {
            Call::AgentSend | Call::ChatAttach => exists|i: int|
                0 <= i < v.len() && #[trigger] v[i] is Err,
            Call::AgentCommand(_) => k.refusal is Some,
            Call::AgentSetSelection(_) => !k.served,
            Call::SwarmSubscribe | Call::SwarmPair(_, _, _) => !k.swarm,
            Call::SwarmUnpair => !k.swarm || k.in_config,
            Call::QuotaReport(_) => !k.owns,
            Call::SessionNew(_, _, activate) => !k.is_dir || (activate && k.store is Some),
            Call::SessionSwitch
            | Call::SessionClose
            | Call::SessionArchive(_)
            | Call::SessionRename => k.store is Some,
            Call::SessionMessages(which) => which is Some && !k.found,
            Call::ToolRegister => k.tool is Some,
            Call::RtpAdd(_) => k.discovered,
            Call::SwarmProbe
            | Call::SwarmCommand
            | Call::ProviderSetCredential
            | Call::AgentListModels
            | Call::UsageHistory
            | Call::PermissionCheck
            | Call::GitRead
            | Call::GitWrite
            | Call::GenComplete
            | Call::PathComplete
            | Call::AskUser
            | Call::SurfaceClaim
            | Call::Screen
            | Call::Other => true,
            _ => false,
        }),
{
    pictures_are_taken_up_to_the_first_that_failed(v);
}

/// A refused call says what is missing: the instance, the directory, the conversation, the machine.
pub proof fn a_refusal_names_what_is_missing(
    call: Call,
    k: Known,
    v: Seq<Result<Attachment, String>>,
)
    requires
        answered(call, k, v).reply is Err,
    ensures
        ({
            let fault = answered(call, k, v).reply->Err_0;
            match call {
                Call::AgentSetSelection(instance) => fault == Fault::NotFound(
                    "no driver serves instance "@ + instance@,
                ),
                Call::SessionNew(cwd, _, _) => !k.is_dir ==> fault == Fault::NotFound(
                    "directory "@ + cwd@,
                ),
                Call::SessionMessages(which) => fault == Fault::NotFound("session "@ + which->0@),
                Call::SwarmSubscribe | Call::SwarmPair(_, _, _) => fault is NotFound,
                Call::SwarmUnpair => (fault is NotFound) == !k.swarm && (fault is Denied)
                    == k.swarm,
                Call::QuotaReport(_) => fault is NotPermitted,
                Call::SessionSwitch | Call::SessionRename => fault is NotFound,
                Call::RtpAdd(_) | Call::AgentSend | Call::ChatAttach => fault is InvalidArgument,
                Call::SwarmProbe | Call::SwarmCommand | Call::ProviderSetCredential =>
                    fault is Internal,
                Call::Other | Call::Screen => fault == Fault::Internal(
                    "unroutable call: "@ + k.log@,
                ),
                _ => true,
            }
        }),
{
}

/// What a store or a driver would not do is told as the kind of thing it is, with what was said of
/// it.
pub proof fn what_went_wrong_is_told_as_what_it_is(
    e: StoreError,
    r: Refusal,
    session: Seq<char>,
)
    ensures
        (store_fault(e) is NotFound) == (e is NoSuch),
        (store_fault(e) is InvalidArgument) == (e is LastSession),
        match store_fault(e) {
            Fault::NotFound(said) => said == e.says(),
            Fault::InvalidArgument(said) => said == e.says(),
            _ => false,
        },
        (refused_as(r, session) is NotFound) == (r is NoSuchAgent),
        (refused_as(r, session) is Denied) == (r is NotPermitted),
        (refused_as(r, session) is InvalidArgument) == (r is Busy || r is Failed),
        r is NoSuchAgent ==> refused_as(r, session) == Fault::NotFound("conversation "@ + session),
{
}

/// The pictures that a call names are taken one after another, up to the first that could not be
/// read; which that was is told.
pub proof fn pictures_are_taken_up_to_the_first_that_failed(v: Seq<Result<Attachment, String>>)
    ensures
        loaded(v).len() <= v.len(),
        forall|i: int|
            0 <= i < loaded(v).len() ==> #[trigger] v[i] is Ok && loaded(v)[i] == v[i]->Ok_0,
        match first_trouble(v) {
            Some(e) => {
                let n = loaded(v).len() as int;
                n < v.len() && v[n] is Err && e == v[n]->Err_0@
            },
            None => loaded(v).len() == v.len(),
        },
        (first_trouble(v) is Some) == exists|i: int| 0 <= i < v.len() && #[trigger] v[i] is Err,
    decreases v.len(),
{
    if v.len() > 0 {
        match v[0] {
            Ok(a) => {
                let rest = v.skip(1);
                pictures_are_taken_up_to_the_first_that_failed(rest);
                let all = loaded(v);
                assert(all == seq![a] + loaded(rest));
                assert forall|i: int| 0 <= i < loaded(v).len() implies #[trigger] v[i] is Ok
                    && loaded(v)[i] == v[i]->Ok_0 by {
                    if i == 0 {
                        assert(all[0] == a);
                    } else {
                        assert(all[i] == loaded(rest)[i - 1]);
                        assert(rest[i - 1] == v[i]);
                    }
                }
                if first_trouble(rest) is Some {
                    let n = loaded(rest).len() as int;
                    assert(rest[n] == v[n + 1]);
                    assert(v[n + 1] is Err);
                } else {
                    assert forall|i: int| 0 <= i < v.len() implies !(#[trigger] v[i] is Err) by {
                        if i > 0 {
                            assert(rest[i - 1] == v[i]);
                            assert(loaded(rest)[i - 1] == rest[i - 1]->Ok_0);
                        }
                    }
                }
            },
            Err(e) => {
                assert(v[0] is Err);
                assert(loaded(v).len() == 0);
            },
        }
    } else {
        assert(loaded(v).len() == 0);
    }
}

/// A permission is wanted for registering tools, hooks that can refuse, drivers, and a place to
/// draw; each has its own, and nothing else wants one.
pub proof fn each_permission_is_for_its_own(call: Call)
    ensures
        (wanted(call) == Some(PluginPermission::Tools)) == (call is ToolRegister),
        (wanted(call) == Some(PluginPermission::HooksBlocking)) == (call == Call::HookRegister(true)),
        (wanted(call) == Some(PluginPermission::Providers)) == (call is ProviderRegisterDriver),
        (wanted(call) == Some(PluginPermission::RawCells)) == (call is SurfaceClaim),
        wanted(call) != Some(PluginPermission::VcsWrite),
{
}

/// What a plugin has not declared it may not do, whoever it is but the workspace itself; what it has
/// declared it may, whatever else it has declared.
pub proof fn a_plugin_may_do_what_it_declared(
    plugin: Seq<char>,
    declared: Seq<PluginPermission>,
    want: PluginPermission,
    more: Seq<PluginPermission>,
)
    ensures
        plugin == "neosh"@ ==> allowed(plugin, declared, want),
        allowed(plugin, declared.push(want) + more, want),
        plugin != "neosh"@ ==> allowed(plugin, declared, want) == declared.contains(want),
{
    let all = declared.push(want) + more;
    assert(all[declared.len() as int] == want);
}

/// The name that a permission is refused under is the one that would grant it, and no two share one.
pub proof fn permissions_have_names_of_their_own(a: PluginPermission, b: PluginPermission)
    ensures
        (a.called() == b.called()) == (a == b),
        a == PluginPermission::Tools ==> a.called() == "tools"@,
        a == PluginPermission::HooksBlocking ==> a.called() == "hooks_blocking"@,
        a == PluginPermission::Providers ==> a.called() == "providers"@,
        a == PluginPermission::RawCells ==> a.called() == "raw_cells"@,
        a == PluginPermission::VcsWrite ==> a.called() == "vcs_write"@,
{
    reveal_strlit("tools");
    reveal_strlit("hooks_blocking");
    reveal_strlit("providers");
    reveal_strlit("raw_cells");
    reveal_strlit("vcs_write");
    assert("tools"@.len() == 5 && "hooks_blocking"@.len() == 14);
    assert("providers"@[0] == 'p' && "raw_cells"@[0] == 'r' && "vcs_write"@[0] == 'v');
}

/// A folder that plugins are looked for in is added at the end, once, however it is written.
pub proof fn a_folder_is_added_once(dirs: Seq<Seq<char>>, one: Seq<char>)
    ensures
        dirs.is_prefix_of(with_folder(dirs, one)),
        with_folder(dirs, one).len() <= dirs.len() + 1,
        (with_folder(dirs, one).len() == dirs.len()) == (exists|i: int|
            0 <= i < dirs.len() && is_same_path(#[trigger] dirs[i], one)),
        with_folder(dirs, one).len() > dirs.len() ==> with_folder(dirs, one).last() == one,
{
}

} // verus!
