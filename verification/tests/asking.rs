//! What plugins and other machines ask for.

use neosh::host::calls::{
    answer, attach_each, before, detach, dispatch, ensure_somewhere_to_go, handle_script_out,
    info_of, infos, plugin_drivers_own, Handler, Served,
    is_slow, may, namespaced, new_session_titled, permission_for, refused, rtp_add, title_given,
    ApiError, Call, Do, Given, Known, PluginPermission, Refusal, Route, StoreError,
};
use neosh::host::desk::{Answered, Desk, Detail};
use neosh::host::kept::Attached;
use neosh::host::peers::{
    is_published, local_projects, pair_as, AgentCommand, Deed, Peer, Placed, SwarmEvent, SwarmStep,
};
use neosh::host::rounds::Turns;
use neosh::host::status::Segment;
use neosh::host::swarm::{
    answer_here, answer_probe, name_on_wire, refusal_text, start_swarm, Around, Asked, ConfigPeer,
    Probed,
    RememberedPeer, Start, Stranger, Swarm, SwarmConfig, Waiting,
};
use neosh::images::Attachment;
use neosh::notify::{MessageLevel, SessionId};

fn known() -> Known {
    Known {
        plugin: "p".into(),
        log: "SomeCall".into(),
        swarm: true,
        served: true,
        in_config: false,
        owns: true,
        is_dir: true,
        on_screen: true,
        found: true,
        discovered: false,
        refusal: None,
        store: None,
        tool: None,
        home: Some("/home/a".into()),
        stranger: None,
    }
}

fn picture(bytes: usize) -> Attachment {
    Attachment {
        path: "/a.png".into(),
        media_type: "image/png".into(),
        width: 1,
        height: 2,
        bytes,
    }
}

#[test]
fn a_plugin_may_only_do_what_it_declared() {
    assert_eq!(permission_for(&Call::HookRegister(false)), None);
    assert_eq!(permission_for(&Call::HookRegister(true)), Some(PluginPermission::HooksBlocking));
    assert!(may("neosh", &vec![], PluginPermission::Tools));
    assert!(!may("p", &vec![PluginPermission::Providers], PluginPermission::Tools));
    match dispatch("p", &vec![], &Call::ToolRegister) {
        Err(ApiError::NotPermitted(s)) => assert_eq!(
            s,
            "tools (plugin p did not declare it \u{2014} add \"tools\" to the permissions list in its plugin.toml)"
        ),
        other => panic!("{other:?}"),
    }
    assert!(matches!(
        dispatch("p", &vec![PluginPermission::Tools], &Call::ToolRegister),
        Ok(Route::Agent)
    ));
    assert!(matches!(dispatch("p", &vec![], &Call::Screen), Ok(Route::Editor)));
    assert!(is_slow(&Call::GitRead) && !is_slow(&Call::SessionList));
}

#[test]
fn closing_a_conversation_is_the_one_call_that_ends_its_turn() {
    assert_eq!(
        before(&Call::SessionClose, &known()),
        vec![Do::EnsureSomewhere, Do::EndTurn, Do::ForgetCommands, Do::CloseDrivers, Do::Remove]
    );
    let r = answer(&Call::SessionClose, &known());
    assert_eq!(
        r.does,
        vec![Do::ForgetFile, Do::ForgetVars, Do::WorkIn, Do::EnterSession, Do::SaveAll]
    );
    assert!(matches!(r.reply, Ok(Given::Unit)));
    assert_eq!(before(&Call::SessionArchive(true), &known()), vec![Do::EnsureSomewhere, Do::Archive]);
    assert_eq!(before(&Call::SessionArchive(false), &known()), vec![Do::Archive]);
    assert_eq!(answer(&Call::SessionArchive(false), &known()).does, vec![Do::SaveAll]);
    let last = Known { store: Some(StoreError::LastSession("only one".into())), ..known() };
    let r = answer(&Call::SessionClose, &last);
    assert!(matches!(r.reply, Err(ApiError::InvalidArgument(s)) if s == "only one"));
    assert!(r.does.is_empty());
    let r = answer(&Call::SessionSwitch, &last);
    assert!(matches!(r.reply, Err(ApiError::NotFound(s)) if s == "only one"));
}

#[test]
fn each_refusal_says_what_is_wrong() {
    let k = known();
    let r = answer(&Call::AgentSetSelection("x".into()), &Known { served: false, ..known() });
    assert!(matches!(r.reply, Err(ApiError::NotFound(s)) if s == "no driver serves instance x"));
    let r = answer(&Call::SwarmSubscribe, &Known { swarm: false, ..known() });
    assert!(matches!(r.reply, Err(ApiError::NotFound(s)) if s == "the swarm is not running"));
    let r = answer(&Call::SwarmUnpair, &Known { in_config: true, ..known() });
    assert!(matches!(r.reply, Err(ApiError::Denied(s)) if s.starts_with("that machine is in your")));
    let r = answer(&Call::QuotaReport("c".into()), &Known { owns: false, ..known() });
    assert!(matches!(r.reply, Err(ApiError::NotPermitted(s))
        if s == "quota.report for c (plugin p did not register a driver serving it)"));
    let r = answer(&Call::RtpAdd("a\"b".into()), &Known { discovered: true, ..known() });
    assert!(matches!(r.reply, Err(ApiError::InvalidArgument(s))
        if s == "rtp.add(\"a\\\"b\") came after plugin discovery; call it from your config, which runs first"));
    let r = answer(&Call::SessionNew("/d".into(), None, true), &Known { is_dir: false, ..known() });
    assert!(matches!(r.reply, Err(ApiError::NotFound(s)) if s == "directory /d"));
    let r = answer(&Call::SessionMessages(Some("s".into())), &Known { found: false, ..known() });
    assert!(matches!(r.reply, Err(ApiError::NotFound(s)) if s == "session s"));
    let r = desk().agent_call(Call::AgentSend, &k, vec![Err("bad".into())]).outcome;
    assert!(matches!(r.reply, Err(ApiError::InvalidArgument(s)) if s == "bad"));
    let r = answer(&Call::Other, &k);
    assert!(matches!(r.reply, Err(ApiError::Internal(s)) if s == "unroutable call: SomeCall"));
    let r = answer(&Call::SwarmProbe, &k);
    assert!(matches!(r.reply, Err(ApiError::Internal(s)) if s == "swarm.probe is answered asynchronously"));
    let tool = Known { tool: Some(ApiError::Denied("taken".into())), ..known() };
    assert!(matches!(answer(&Call::ToolRegister, &tool).reply, Err(ApiError::Denied(_))));
    assert!(matches!(refused(&Refusal::NoSuchAgent, "s"), ApiError::NotFound(s) if s == "conversation s"));
    assert!(matches!(refused(&Refusal::Busy("b".into()), "s"), ApiError::InvalidArgument(_)));
    let busy = Known { refusal: Some(Refusal::NotPermitted("no".into())), ..known() };
    assert!(matches!(answer(&Call::AgentCommand("s".into()), &busy).reply, Err(ApiError::Denied(_))));
    assert_eq!(answer(&Call::VarSet("s".into(), "k".into(), "1".into()), &k).does, vec![Do::WriteVar, Do::Broadcast]);
    assert_eq!(
        answer(&Call::SwarmPair("n".into(), "desk".into(), None), &k).does,
        vec![Do::Pair, Do::ForgetStranger, Do::SayPaired, Do::Broadcast]
    );
}

fn desk() -> Desk {
    let row = |session: &str, bytes: Vec<usize>| Attached {
        session: SessionId(session.into()),
        row: bytes.into_iter().map(picture).collect(),
    };
    Desk {
        rows: vec![row("here", vec![1, 2, 3]), row("there", vec![9])],
        plugin_dirs: vec!["/p".into()],
        ..Desk::new(SessionId("here".into()))
    }
}

fn held(d: &Desk, session: &str) -> Vec<usize> {
    d.rows
        .iter()
        .find(|r| r.session.0 == session)
        .map(|r| r.row.iter().map(|a| a.bytes).collect())
        .unwrap_or_default()
}

fn listed(r: &Answered) -> Vec<u32> {
    r.pictures.iter().map(|i| i.bytes).collect()
}

#[test]
fn a_picture_is_detached_by_its_place_or_the_newest() {
    let k = known();
    let mut d = desk();
    let r = d.agent_call(Call::ChatDetach(None), &k, vec![]);
    assert_eq!(listed(&r), vec![3]);
    assert_eq!(r.outcome.does, vec![Do::RefreshComposer]);
    assert_eq!(held(&d, "here"), vec![1, 2]);
    let r = d.agent_call(Call::ChatDetach(Some(0)), &k, vec![]);
    assert_eq!(listed(&r), vec![1]);
    let r = d.agent_call(Call::ChatDetach(Some(7)), &k, vec![]);
    assert!(listed(&r).is_empty() && r.outcome.reply.is_ok(), "out of range is not an error");
    assert_eq!(held(&d, "here"), vec![2]);
    let r = d.agent_call(Call::ChatAttach, &k, vec![Ok(picture(5))]);
    assert_eq!(listed(&r), vec![5]);
    assert_eq!(listed(&d.agent_call(Call::ChatAttachments, &k, vec![])), vec![2, 5]);
    let r = d.agent_call(Call::ChatDetachAll, &k, vec![]);
    assert_eq!(listed(&r), vec![2, 5]);
    assert!(held(&d, "here").is_empty());
    let r = d.agent_call(Call::ChatDetach(None), &k, vec![]);
    assert!(listed(&r).is_empty());
    assert_eq!(held(&d, "there"), vec![9], "no other row is touched");
}

#[test]
fn what_a_plugin_sends_travels_with_what_is_there() {
    let k = known();
    let mut d = desk();
    let r = d.agent_call(Call::AgentSend, &k, vec![Ok(picture(4)), Err("no".into()), Ok(picture(5))]);
    assert!(matches!(r.outcome.reply, Err(ApiError::InvalidArgument(ref s)) if s == "no"));
    assert_eq!(r.outcome.does, vec![Do::RefreshComposer]);
    assert_eq!(held(&d, "here"), vec![1, 2, 3, 4], "it stops at the first that cannot be had");
    let r = d.agent_call(Call::AgentSend, &k, vec![]);
    assert_eq!(r.outcome.does, vec![Do::StartTurn]);
}

#[test]
fn what_plugins_put_on_the_rows_is_kept_under_their_own_names() {
    let k = known();
    let mut d = desk();
    d.agent_call(Call::HintSet("b".into(), "^B".into(), "branch".into(), 1), &k, vec![]);
    d.agent_call(Call::HintSet("b".into(), "^G".into(), "branch".into(), 2), &k, vec![]);
    assert_eq!(d.hints.len(), 1);
    assert_eq!((d.hints[0].key.as_str(), d.hints[0].keys.as_str()), ("p:b", "^G"));
    d.agent_call(Call::HintClear("b".into()), &k, vec![]);
    assert!(d.hints.is_empty());
    let part = Segment {
        key: String::new(),
        text: "main".into(),
        hl: None,
        keys: None,
        right: false,
        priority: 0,
    };
    d.agent_call(Call::StatusSet("s".into(), part), &k, vec![]);
    assert_eq!((d.segments[0].key.as_str(), d.segments[0].text.as_str()), ("p:s", "main"));
    d.agent_call(Call::StatusClear("s".into()), &k, vec![]);
    assert!(d.segments.is_empty());
    d.agent_call(Call::RtpAdd("~/q".into()), &k, vec![]);
    d.agent_call(Call::RtpAdd("/p/".into()), &k, vec![]);
    let late = Known { discovered: true, ..known() };
    assert!(d.agent_call(Call::RtpAdd("/r".into()), &late, vec![]).outcome.reply.is_err());
    assert_eq!(d.agent_call(Call::RtpList, &k, vec![]).folders, vec!["/p", "/home/a/q"]);
}

#[test]
fn a_plugin_speaks_in_its_own_name() {
    let k = known();
    let told = |call: Call, k: &Known| desk().agent_call(call, k, vec![]).detail;
    assert!(matches!(told(Call::StateSet("key".into(), "1".into()), &k),
        Detail::State(p, key, Some(v)) if p == "p" && key == "key" && v == "1"));
    assert!(matches!(told(Call::StateDelete("key".into()), &k), Detail::State(_, _, None)));
    assert!(matches!(told(Call::VarDelete("s".into(), "key".into()), &k),
        Detail::Var(s, key, None) if s == "s" && key == "key"));
    assert!(matches!(told(Call::EventEmit("e".into(), "{}".into()), &k),
        Detail::Event(n, d, from) if n == "e" && d == "{}" && from == "p"));
    assert!(matches!(told(Call::ProviderForgetCredential("x".into()), &k),
        Detail::Forget(i, said) if i == "x" && said == "forgot the key for x"));
    assert!(matches!(told(Call::SessionNew("/d".into(), Some("  ".into()), false), &k),
        Detail::New(None)));
    // What a machine calls itself wins over what it is to be called.
    let met = Stranger {
        id: "n".into(),
        name: "den".into(),
        dialled: true,
        addr: Some("10.0.0.2:1".into()),
    };
    let known = Known { stranger: Some(met), ..known() };
    assert!(matches!(told(Call::SwarmPair("n".into(), "desk".into(), None), &known),
        Detail::Pair(n, name, Some(at), said)
            if n == "n" && name == "den" && at == "10.0.0.2:1" && said == "paired with den"));
    assert!(matches!(told(Call::VarAll, &k), Detail::Nothing));
}

#[test]
fn a_row_of_pictures_is_added_to_and_taken_from() {
    let mut row = vec![picture(1)];
    let bad = attach_each(&mut row, vec![Ok(picture(2)), Err("no".into()), Ok(picture(3))]);
    assert_eq!(bad.as_deref(), Some("no"));
    assert_eq!(row.len(), 2);
    assert_eq!(attach_each(&mut row, vec![Ok(picture(4))]), None);
    assert_eq!(infos(&row).iter().map(|i| i.bytes).collect::<Vec<_>>(), vec![1, 2, 4]);
    assert_eq!(detach(&mut row, Some(0)).map(|a| a.bytes), Some(1));
    assert_eq!(detach(&mut row, Some(9)), None);
    assert_eq!(detach(&mut row, None).map(|a| a.bytes), Some(4));
    assert_eq!(info_of(&picture(usize::MAX)).bytes, u32::MAX);
}

#[test]
fn names_are_kept_apart_and_blank_is_not_a_name() {
    assert_eq!(namespaced("git", "branch"), "git:branch");
    assert_eq!(new_session_titled(Some("  a b ")).as_deref(), Some("a b"));
    assert_eq!(new_session_titled(Some(" \t")), None);
    assert_eq!(title_given(Some(" a ".into())).as_deref(), Some(" a "));
    assert_eq!(title_given(Some("  ".into())), None);
    assert!(ensure_somewhere_to_go(&vec!["a".into()], "a"));
    assert!(!ensure_somewhere_to_go(&vec!["a".into(), "b".into()], "a"));
    let mut dirs = vec!["/p".to_string()];
    rtp_add(&mut dirs, "~/q", Some("/home/a"));
    rtp_add(&mut dirs, "/home/a/q", Some("/home/a"));
    assert_eq!(dirs, vec!["/p", "/home/a/q"]);
}

fn config(listens: bool, peers: Vec<ConfigPeer>) -> SwarmConfig {
    SwarmConfig {
        peers,
        listens,
        name: None,
        heartbeat_secs: 0,
        accepts_commands: true,
        accepts_approvals: false,
    }
}

fn outside() -> Around {
    Around { has_state: true, identity: None, listen: None, name: "desk".into(), id: "ab12".into() }
}

#[test]
fn a_node_starts_only_where_somebody_asked() {
    assert!(matches!(start_swarm(&config(false, vec![]), &outside(), &vec![]), Start::No));
    let clean = Around { has_state: false, ..outside() };
    assert!(matches!(start_swarm(&config(true, vec![]), &clean, &vec![]), Start::Cannot(MessageLevel::Warn, _)));
    let broken = Around { identity: Some("e".into()), ..outside() };
    assert!(matches!(start_swarm(&config(true, vec![]), &broken, &vec![]),
        Start::Cannot(MessageLevel::Error, s) if s == "swarm identity: e"));
    let peers = vec![
        ConfigPeer { addr: "a:1".into(), id: Some("A".into()), name: None },
        ConfigPeer { addr: "b:1".into(), id: None, name: Some("bee".into()) },
    ];
    let remembered = vec![
        RememberedPeer { id: "R".into(), addr: Some("r:1".into()) },
        RememberedPeer { id: "S".into(), addr: None },
    ];
    let bad = Around { listen: Some("e".into()), ..outside() };
    match start_swarm(&config(true, peers), &bad, &remembered) {
        Start::Node(n) => {
            let dialled: Vec<_> =
                n.dial.iter().map(|d| (d.addr.as_str(), d.expect.as_deref())).collect();
            assert_eq!(dialled, vec![("r:1", Some("R")), ("a:1", Some("A")), ("b:1", None)]);
            assert_eq!(n.allow.len(), 1, "an address with no key is not an authorisation");
            assert_eq!(n.allow[0].name, "a:1");
            assert_eq!((n.listen, n.name.as_str(), n.heartbeat_secs), (false, "desk", 1));
            assert_eq!(n.said[0].1, "swarm peer b:1 has no id yet \u{2014} ^J to pair with it");
            assert_eq!(n.said[1].1, "swarm.listen is not an address: e");
            assert_eq!(n.said[2], (MessageLevel::Info, "swarm: this node is ab12".into()));
            assert!(n.accepts_commands && !n.accepts_approvals);
        }
        _ => panic!("it starts"),
    }
}

fn waiting(n: u64) -> Waiting {
    Waiting { plugin: "p".into(), request: n }
}

#[test]
fn everybody_who_waits_is_answered_once() {
    let mut s = Swarm::new();
    assert!(matches!(s.begin_swarm_command("N", waiting(1)),
        Asked::Answered(_, ApiError::NotFound(m)) if m == "the swarm is not running"));
    s.me = Some("ME".into());
    assert!(matches!(s.begin_swarm_command("ME", waiting(2)), Asked::Here(_)));
    assert!(matches!(s.begin_swarm_command("N", waiting(3)), Asked::Sent(id) if id == "c1"));
    assert!(matches!(s.begin_swarm_command("N", waiting(4)), Asked::Sent(id) if id == "c2"));
    let (w, r) = s.on_swarm_reply("c1", false, "busy".into()).expect("waiting");
    assert_eq!(w.request, 3);
    assert!(matches!(r, Err(ApiError::Denied(m)) if m == "busy"));
    assert!(s.on_swarm_reply("c1", true, String::new()).is_none());
    let gone = s.on_swarm_event(SwarmEvent::PeerDown("N".into()), None, "ab12", None);
    assert_eq!(gone.len(), 4);
    assert!(matches!(&gone[1], SwarmStep::Say(MessageLevel::Warn, m) if m == "lost ab12"));
    assert!(matches!(&gone[2], SwarmStep::Settle(w, Err(ApiError::NotFound(m)))
        if w.request == 4 && m == "ab12 went away before answering"));
    assert!(s.pending.is_empty());
    assert_eq!(name_on_wire(41), "c41");
}

#[test]
fn a_machine_is_announced_once() {
    let mut s = Swarm::new();
    s.me = Some("ME".into());
    let up = || SwarmEvent::PeerUp("N".into(), "lap".into());
    assert_eq!(s.on_swarm_event(up(), None, "", None).len(), 4);
    let there = Peer { name: "lap".into(), up: true };
    assert_eq!(s.on_swarm_event(up(), Some(&there), "", None).len(), 2);
    let meet = || SwarmEvent::Stranger("X".into(), "who".into(), false);
    let first = s.on_swarm_event(meet(), None, "", Some("x:1".into()));
    assert!(matches!(&first[0], SwarmStep::Say(_, m)
        if m == "who wants to join this workspace \u{2014} ^J to allow it"));
    assert_eq!(s.on_swarm_event(meet(), None, "", None).len(), 1);
    assert_eq!(s.strangers.len(), 1);
    assert_eq!(s.strangers[0].addr, None, "it dialled us");
    let sub = || SwarmEvent::Subscribed("c".into());
    assert!(matches!(s.on_swarm_event(sub(), None, "", None).as_slice(), [SwarmStep::History]));
    assert!(s.on_swarm_event(sub(), None, "", None).is_empty());
    assert!(s.is_streamed("c") && !s.is_streamed("d"));
    assert!(s.on_swarm_event(SwarmEvent::Unsubscribed, None, "", None).is_empty());
    let named = Stranger { id: "X".into(), name: "who".into(), dialled: true, addr: Some("x:1".into()) };
    assert_eq!(pair_as(Some(&named), "typed".into(), None), ("who".into(), Some("x:1".into())));
    assert_eq!(pair_as(None, "typed".into(), None), ("typed".into(), None));
}

#[test]
fn a_refusal_is_in_words_a_person_can_act_on() {
    assert_eq!(refusal_text(&Refusal::NoSuchAgent), "that conversation is not there any more");
    assert!(matches!(answer_here(Some(&Refusal::Failed("a\"b".into()))),
        Err(ApiError::Denied(m)) if m == "Failed { message: \"a\\\"b\" }"));
    assert!(matches!(answer_here(None), Ok(Given::Unit)));
}

#[test]
fn a_command_is_refused_for_the_same_reason_on_both_paths() {
    let mut t = Turns::new();
    let s = SessionId("a".into());
    t.start_turn_in(SessionId("a".into()), 0, 0);
    assert!(matches!(t.apply_agent_command(&s, &AgentCommand::Send, false, true, true),
        Err(Refusal::NoSuchAgent)));
    assert!(matches!(
        t.apply_agent_command(&s, &AgentCommand::NewSession("/d".into()), false, false, true),
        Err(Refusal::Failed(m)) if m == "/d is not a directory here"));
    assert!(matches!(
        t.apply_agent_command(&s, &AgentCommand::SetModel("i".into(), "m".into()), true, true, false),
        Err(Refusal::Failed(m)) if m == "i/m is not a model this machine has"));
    assert!(matches!(t.apply_agent_command(&s, &AgentCommand::Approve, true, true, true),
        Err(Refusal::NotPermitted(_))));
    assert!(matches!(t.apply_agent_command(&s, &AgentCommand::Interrupt, true, true, true),
        Ok(Deed::Interrupted)));
    assert!(matches!(t.apply_agent_command(&s, &AgentCommand::Interrupt, true, true, true),
        Ok(Deed::Nothing)));
    assert!(is_published(Deed::Rename) && !is_published(Deed::StartTurn));
}

#[test]
fn each_checkout_is_offered_once_in_the_order_of_names() {
    let at = |p: &str, c: &str| Placed { key: p.into(), project: p.into(), cwd: c.into() };
    let v = vec![at("zed", "/z"), at("ant", "/a"), at("zed", "/z"), at("ant", "/b")];
    assert_eq!(local_projects(&v), vec![1, 3, 0]);
}

#[test]
fn some_calls_are_answered_by_somebody_else() {
    assert_eq!(handle_script_out(&Call::ProviderSetCredential, false), Handler::KeyPrompt);
    assert_eq!(handle_script_out(&Call::SwarmProbe, true), Handler::Probe);
    assert_eq!(handle_script_out(&Call::SwarmCommand, true), Handler::Machine);
    assert_eq!(handle_script_out(&Call::SwarmCommand, false), Handler::Now);
    assert_eq!(handle_script_out(&Call::GitWrite, false), Handler::Background);
    assert_eq!(handle_script_out(&Call::VarGet, true), Handler::Now);
    let v = vec![Served { instance: "lab".into(), driver: "d".into() }];
    assert!(plugin_drivers_own(&vec!["d".into()], &v, "lab"));
    assert!(!plugin_drivers_own(&vec!["d".into()], &v, "other"));
    assert!(!plugin_drivers_own(&vec![], &v, "lab"));
}

#[test]
fn an_address_that_does_not_answer_says_so() {
    let mut s = Swarm::new();
    assert!(matches!(s.begin_swarm_probe(true), Some(ApiError::NotFound(m))
        if m == "the swarm is not running"));
    s.me = Some("ME".into());
    assert!(matches!(s.begin_swarm_probe(false), Some(ApiError::NotFound(m))
        if m == "no state directory"));
    assert!(s.begin_swarm_probe(true).is_none());
    assert!(matches!(answer_probe("a:1", &Probed::Found), Ok(Given::SwarmSelf)));
    assert!(matches!(answer_probe("a:1", &Probed::Silent), Err(ApiError::NotFound(m))
        if m == "nothing answered at a:1"));
    assert!(matches!(answer_probe("a:1", &Probed::Wrong("refused".into())),
        Err(ApiError::NotFound(m)) if m == "a:1: refused"));
    assert!(matches!(answer_probe("a:1", &Probed::NoKey("e".into())), Err(ApiError::Internal(_))));
}
