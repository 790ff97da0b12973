//! Coming up, settings, models, and what things are called.

use neosh::host::calls::ApiError;
use neosh::host::chat::Chat;
use neosh::host::commands::OnQuit;
use neosh::host::keys::Mode;
use neosh::host::models::{
    apply_option, ensure_usable_selection, install_builtin_providers, refresh_quota,
    retry_pending_model, Applied, Plan,
    Driver, Facts, Fallback, Instance, Model, Moved, Selection,
};
use neosh::host::options::{declare_builtin_options, OptionType, OptionValue};
use neosh::host::places::{
    commands_key, file_name, image_row, machine_name, now_secs, project_name, remember_commands,
    restore_sessions, same_dir, stamped, stem, Saved,
};
use neosh::host::startup::{
    describe_api_error, discover_plugins, report_unknown_option, Bootstrap,
    Bundled, Held, Next, Reload, Resolved, Script, Startup, Step, Wish,
};
use neosh::host::workspace::Host;
use neosh::images::keeping::keep;
use neosh::notify::MessageLevel;

fn resolved(scripts: Vec<Script>) -> Resolved {
    Resolved {
        model: Some("a/b".into()),
        system_prompt: None,
        options: vec![Wish { name: "x".into(), value: OptionValue::Int(1) }],
        plugin_dirs: vec!["/p".into(), "/q".into()],
        scripts,
        no_builtin_plugins: false,
    }
}

fn booted() -> Startup {
    let mut s = Startup::new();
    let scripts = vec![Script { id: "init".into(), path: "/c/init.ts".into() }];
    let wishes = s.begin_startup(Bootstrap {
        resolved: resolved(scripts),
        cli_model: Some("flag/model".into()),
        cli_plugin_dirs: vec!["/q".into(), "/r".into()],
    });
    assert_eq!(wishes.len(), 2);
    assert_eq!(wishes[0].name, "agent.model");
    assert_eq!(wishes[1].name, "x");
    s
}

const SETTLED: [Step; 5] = [
    Step::RetryModel,
    Step::ReportUnknown,
    Step::RunHeld,
    Step::AnnounceReady,
    Step::RunPendingReload,
];

#[test]
fn configuration_goes_first_and_then_plugins() {
    let mut s = booted();
    assert!(s.startup_in_flight());
    assert!(matches!(s.next_config_script(), Next::Script(x) if x.id == "init"));
    assert!(matches!(s.reload_config(), Reload::Say(MessageLevel::Info, _)));
    assert!(matches!(s.reload_config(), Reload::Wait));
    assert!(s.advance_startup("somebody else").is_empty());
    assert_eq!(s.advance_startup("init"), vec![Step::RetryDeferred, Step::NextScript]);
    assert!(matches!(s.next_config_script(), Next::Discover));
    assert_eq!(s.begin_discovery().as_deref(), Some("flag/model"), "the flag beats every file");
    assert_eq!(s.folders(), vec!["/p", "/q", "/r"]);
    assert!(s.end_discovery(2).is_empty());
    assert_eq!(s.advance_startup("one"), vec![Step::RetryDeferred]);
    let mut want = vec![Step::RetryDeferred];
    want.extend(SETTLED);
    assert_eq!(s.advance_startup("two"), want);
    assert!(!s.startup_in_flight());
    assert!(s.run_pending_reload());
    assert!(!s.run_pending_reload());
    let mut empty = Startup::new();
    empty.begin_discovery();
    assert_eq!(empty.end_discovery(0), SETTLED.to_vec());
    assert!(matches!(
        empty.reload_config(),
        Reload::Say(MessageLevel::Error, "this session cannot reload configuration")
    ));
    s.script_refused();
    assert!(s.active.is_none());
}

#[test]
fn what_names_something_unknown_is_held_until_it_is_known() {
    let mut s = booted();
    let wish = || Wish { name: "git.x".into(), value: OptionValue::Bool(true) };
    assert!(s.set_option_or_defer(wish(), false).is_none());
    assert!(s.set_option_or_defer(wish(), true).is_some());
    assert_eq!(s.take_deferred().len(), 1);
    assert!(s.deferred.is_empty());
    let command = || Held { name: "git.diff".into(), args: vec![] };
    assert!(s.run_or_hold(command(), false).is_none());
    assert!(s.run_or_hold(command(), true).is_some());
    assert_eq!(s.run_held_commands().len(), 1);
    s.begin_discovery();
    assert!(s.run_or_hold(command(), false).is_some(), "nothing is loading any more");
    assert_eq!(
        report_unknown_option("a", "true"),
        "option \"a\" = true is not declared by anything. Is the plugin that provides it installed?"
    );
}

#[test]
fn a_reload_that_cannot_be_read_leaves_everything_alone() {
    let mut s = booted();
    s.active = None;
    assert!(matches!(s.reload_config(), Reload::Read));
    let err = s.reload_read(Err("line 3".into())).expect_err("kept");
    assert_eq!(err, "reload failed, keeping the current config: line 3");
    assert_eq!((s.generation, s.cli_model.as_deref()), (0, Some("flag/model")));
    let wishes = s.reload_read(Ok(resolved(vec![]))).expect("read");
    assert_eq!(wishes.len(), 2);
    assert_eq!(s.generation, 1);
    assert_eq!(s.plugin_dirs, vec!["/p", "/q", "/q", "/r"]);
    assert!(!s.discovered);
}

#[test]
fn a_reload_loads_from_an_address_that_has_not_been_seen() {
    let mut s = Startup::new();
    assert_eq!(s.load_url("builtin:git"), "builtin:git");
    assert_eq!(s.load_script("/c/a b?.ts").expect("absolute"), "file:///c/a%20b%3F.ts");
    s.generation = 3;
    assert_eq!(s.load_url("builtin:git"), "builtin:git?v=3");
    assert_eq!(s.load_url("builtin:git?v=1"), "builtin:git?v=1");
    assert_eq!(s.load_script("/c/init.ts").expect("absolute"), "file:///c/init.ts?v=3");
    assert_eq!(s.load_script("init.ts").expect_err("relative"), "init.ts: not an absolute path");
}

#[test]
fn a_bundled_plugin_can_be_switched_off() {
    let all = vec![
        Bundled { name: "sidebar".into(), readable: true },
        Bundled { name: "git".into(), readable: true },
        Bundled { name: "broken".into(), readable: false },
    ];
    assert_eq!(discover_plugins(&all, false, &vec!["sidebar".into()]), vec![1]);
    assert_eq!(discover_plugins(&all, false, &vec![]), vec![0, 1]);
    assert!(discover_plugins(&all, true, &vec![]).is_empty());
}

#[test]
fn a_refused_setting_is_said_in_words() {
    assert_eq!(describe_api_error("x", &ApiError::NotFound("no x".into())), "no x");
    assert_eq!(describe_api_error("x", &ApiError::InvalidArgument("too big".into())), "too big");
    assert_eq!(
        describe_api_error("x", &ApiError::Denied("why".into())),
        "option x: Denied { reason: \"why\" }"
    );
    assert_eq!(
        describe_api_error("x", &ApiError::Busy("m".into())),
        "option x: Busy { message: \"m\" }"
    );
}

#[test]
fn every_setting_is_declared_with_a_value_it_takes() {
    let all = declare_builtin_options(Some("/home/a"));
    assert!(all.iter().all(|o| o.owner == "neosh"), "the workspace owns its own");
    assert_eq!(all.len(), 34);
    let by = |n: &str| all.iter().find(|o| o.name == n).expect("declared");
    assert!(matches!(&by("timeoutlen").ty, OptionType::Int(Some(0), Some(10_000))));
    assert!(matches!(by("timeoutlen").default, OptionValue::Int(500)));
    assert!(matches!(by("chat.show_tools").default, OptionValue::Bool(true)));
    assert!(matches!(&by("mapleader").default, OptionValue::Str(s) if s == "\\"));
    assert!(matches!(&by("worktree.root").default, OptionValue::Str(s) if s == "/home/a/.nsh"));
    assert!(matches!(&by("ui.modal_escape_keys").default,
        OptionValue::List(v) if *v == vec!["<C-q>", "<C-r>"]));
    assert!(matches!(&by("plugins.disabled").default, OptionValue::List(v) if v.is_empty()));
    assert!(matches!(&by("ui.theme").ty, OptionType::Enum(v) if *v == vec!["dark", "light"]));
    assert!(matches!(&by("ui.theme").default, OptionValue::Str(s) if s == "dark"));
    assert!(by("mapleader").description.contains("as in Neovim \u{2014} set it in `init.ts`"));
    for (i, a) in all.iter().enumerate() {
        assert!(all[i + 1..].iter().all(|b| b.name != a.name), "{} twice", a.name);
    }
}

fn model(id: &str, family: &str, tier: Option<u32>, legacy: bool) -> Model {
    Model { id: id.into(), family: Some(family.into()), legacy, tier }
}

fn instance(id: &str, ready: bool, usable: bool, models: Vec<Model>) -> Instance {
    Instance { id: id.into(), models, ready, usable }
}

fn pick(i: &str, m: &str) -> Selection {
    Selection { instance: i.into(), model: m.into() }
}

#[test]
fn a_model_that_cannot_authenticate_is_replaced_by_its_own_line() {
    let v = vec![
        instance("cloud", false, false, vec![model("grand-5", "grand", Some(3), false)]),
        instance("unready", false, true, vec![model("grand-9", "grand", Some(9), false)]),
        instance(
            "desk-cli",
            true,
            true,
            vec![
                model("grand-4", "grand", Some(1), false),
                model("grand", "grand", Some(2), false),
                model("grand-latest", "grand", Some(2), false),
                model("grand-old", "grand", Some(9), true),
            ],
        ),
    ];
    let now = pick("cloud", "grand-5");
    match ensure_usable_selection(false, Some(&now), &v, Some(pick("z", "z"))) {
        Moved::To(s, said) => {
            assert_eq!((s.instance.as_str(), s.model.as_str()), ("desk-cli", "grand-latest"));
            assert_eq!(
                said,
                "cloud/grand-5 cannot authenticate \u{2014} using desk-cli/grand-latest instead."
            );
        }
        other => panic!("{other:?}"),
    }
    let odd = pick("cloud", "unknown");
    assert!(matches!(ensure_usable_selection(false, Some(&odd), &v, Some(pick("z", "y"))),
        Moved::To(s, _) if s.model == "y"));
    assert!(matches!(ensure_usable_selection(false, Some(&odd), &v, None),
        Moved::Nowhere(s) if s.starts_with("cloud cannot authenticate, and nothing else")));
    assert!(matches!(ensure_usable_selection(true, Some(&now), &v, None), Moved::Stay));
    assert!(matches!(ensure_usable_selection(false, None, &v, None), Moved::Stay));
    let fine = pick("desk-cli", "grand");
    assert!(matches!(ensure_usable_selection(false, Some(&fine), &v, None), Moved::Stay));
    assert!(matches!(retry_pending_model(true, None), Fallback::Keep));
    assert!(matches!(retry_pending_model(false, Some(pick("a", "b"))), Fallback::Select(_)));
    assert!(matches!(retry_pending_model(false, None), Fallback::Say(MessageLevel::Warn, _)));
}

#[test]
fn a_setting_of_the_workspace_takes_effect() {
    let facts = Facts { parses: true, served: true, themed: true };
    let text = |s: &str| OptionValue::Str(s.into());
    let mut s = Startup::new();
    let held = Facts { served: false, ..facts };
    assert!(matches!(apply_option(&mut s, "agent.model", &text("a/b"), held, None), Applied::Nothing));
    assert_eq!(s.pending_model.as_deref(), Some("a/b"));
    assert!(matches!(apply_option(&mut s, "agent.model", &text("a/b"), facts, None), Applied::Select));
    assert!(s.pinned && s.pending_model.is_none());
    s.discovered = true;
    assert!(matches!(apply_option(&mut s, "agent.model", &text("a/b"), held, None),
        Applied::Say(MessageLevel::Error, m)
        if m == "agent.model: no provider serves a/b. `neosh --list-models` shows what is reachable."));
    let odd = Facts { parses: false, ..facts };
    assert!(matches!(apply_option(&mut s, "agent.model", &text("ab"), odd, None),
        Applied::Say(_, m) if m == "agent.model: \"ab\" is not `instance/model`"));
    assert!(matches!(apply_option(&mut s, "agent.model", &text(""), facts, None), Applied::Nothing));
    let home = Some("/home/a");
    assert!(matches!(apply_option(&mut s, "worktree.root", &text("~/w"), facts, home),
        Applied::SetAgain(p) if p == "/home/a/w"));
    assert!(matches!(apply_option(&mut s, "worktree.root", &text("/w"), facts, home), Applied::Nothing));
    let dull = Facts { themed: false, ..facts };
    assert!(matches!(apply_option(&mut s, "ui.theme", &text("dark"), facts, None), Applied::Theme));
    assert!(matches!(apply_option(&mut s, "ui.theme", &text("x"), dull, None),
        Applied::Say(_, m) if m == "ui.theme: \"x\" is not a theme"));
    assert!(matches!(apply_option(&mut s, "ui.motion", &OptionValue::Bool(false), facts, None),
        Applied::Motion(false)));
    assert!(matches!(apply_option(&mut s, "ui.hints", &OptionValue::Bool(false), facts, None),
        Applied::RefreshComposer));
    assert!(matches!(apply_option(&mut s, "agent.system_prompt", &text(""), facts, None),
        Applied::SystemPrompt(None)));
    assert!(matches!(apply_option(&mut s, "agent.system_prompt", &text("p"), facts, None),
        Applied::SystemPrompt(Some(p)) if p == "p"));
    assert!(matches!(apply_option(&mut s, "git.x", &text("p"), facts, None), Applied::Nothing));
}

#[test]
fn a_driver_is_offered_only_where_its_program_is() {
    let (all, local) = install_builtin_providers(true, false, &vec![false, true]);
    assert_eq!(local, vec![Driver::ClaudeCli, Driver::Agent(1)]);
    assert_eq!(all[..3], [Driver::Anthropic, Driver::OpenAiCompatible, Driver::Google]);
    assert_eq!(all.len(), 5);
}

#[test]
fn a_checkout_is_called_after_its_repository() {
    assert_eq!(project_name("/w/thing", None, None, false), "thing");
    assert_eq!(project_name("/", None, None, false), "/");
    assert_eq!(project_name("/w/neosh", Some("main"), Some("/w/neosh"), true), "neosh");
    assert_eq!(
        project_name("/t/wt-1", Some("fix/thing"), Some("/w/neosh"), false),
        "neosh \u{b7} fix/thing"
    );
    assert_eq!(project_name("/t/wt-1/", None, Some("/w/neosh"), false), "neosh \u{b7} wt-1");
    assert!(same_dir("/a", "/a", None, None));
    assert!(same_dir("/a/b", "/a//./b/", None, None), "however it is spelled");
    assert!(!same_dir("a", "./a", None, None));
    assert!(same_dir("/a", "/b", Some("/c/"), Some("/c")));
    assert!(same_dir("/a", "/b", Some("/c"), Some("/c")));
    assert!(!same_dir("/a", "/b", Some("/c"), None));
    assert_eq!(file_name("a/b/.").as_deref(), Some("b"));
    assert_eq!(file_name("a/.."), None);
    assert_eq!(stem("a.tar.gz"), "a.tar");
    assert_eq!(stem(".bashrc"), ".bashrc");
}

#[test]
fn a_picture_is_named_only_where_somebody_chose_the_name() {
    assert_eq!(image_row("/s/cat.png", "image/png"), "[png \u{b7} cat]");
    assert_eq!(image_row("/s/123e4567-e89b-12d3-a456-426614174000.png", "image/png"), "[png]");
    assert_eq!(image_row("", "application/x"), "[application/x]");
    // What was kept goes by a name that nobody chose.
    let img = image::RgbaImage::from_pixel(1, 1, image::Rgba([1, 2, 3, 255]));
    let mut bytes = Vec::new();
    image::DynamicImage::ImageRgba8(img)
        .write_to(&mut std::io::Cursor::new(&mut bytes), image::ImageFormat::Png)
        .expect("encode");
    let (kept, _) = keep("/state/images", bytes).expect("kept");
    assert_eq!(image_row(&kept.path, &kept.media_type), "[png]");
}

#[test]
fn this_machine_goes_by_the_first_part_of_its_name() {
    assert_eq!(machine_name(Some("desk.local"), Some("X"), "neosh"), "desk");
    assert_eq!(machine_name(None, Some("LAP"), "neosh"), "LAP");
    assert_eq!(machine_name(Some(""), Some("LAP"), "neosh"), "neosh");
    assert_eq!(machine_name(None, None, "this-machine"), "this-machine");
    assert_eq!(stamped(Some(5)), 5);
    assert_eq!(stamped(None), 0);
    assert_eq!(stamped(Some(u64::MAX)), u64::MAX as i64);
    assert!(now_secs() > 1_600_000_000);
    assert_eq!(commands_key(Some("lab"), "/w").as_deref(), Some("commands:lab:/w"));
    assert_eq!(commands_key(None, "/w"), None);
    assert!(remember_commands(1, true, false) && !remember_commands(0, true, false));
}

#[test]
fn a_workspace_opens_where_you_were_and_never_on_what_is_put_away() {
    let saved = |v: &[(&str, bool)]| -> Vec<Saved> {
        v.iter().map(|(i, a)| Saved { id: i.to_string(), archived: *a }).collect()
    };
    assert_eq!(restore_sessions(Some("x".into()), &saved(&[])).as_deref(), Some("x"));
    assert_eq!(restore_sessions(None, &saved(&[("a", true), ("b", false)])).as_deref(), Some("b"));
    assert_eq!(restore_sessions(None, &saved(&[("a", true)])), None);
}

#[test]
fn reading_gives_the_keyboard_back() {
    let mut h = Host::new(Some("/home/a"), None, None);
    assert_eq!((h.name.as_str(), h.mode, h.options.len()), ("neosh", Mode::Chat, 34));
    assert_eq!(h.on_quit, OnQuit::Stop);
    h.serve();
    assert_eq!(h.on_quit, OnQuit::Detach);
    h.mode = Mode::Insert;
    assert_eq!(h.enter_reading(), Some(0));
    assert_eq!(h.enter_reading(), None);
    assert_eq!((h.mode, h.reading), (Mode::Normal, true));
    h.chat_top = Some(3);
    assert!(h.leave_reading());
    assert!(!h.leave_reading());
    assert_eq!((h.mode, h.chat_top), (Mode::Insert, None));
    h.enter_reading();
    h.welcome_rows = 4;
    h.enter_session(Chat::new());
    assert_eq!((h.mode, h.reading, h.welcome_rows), (Mode::Insert, false, 0));
}

#[test]
fn a_plan_is_asked_only_where_somebody_let_it_be() {
    let plan = |i: &str, pollable, program: Option<&str>| Plan {
        instance: i.into(),
        pollable,
        program: program.map(str::to_string),
    };
    let v = vec![plan("a", true, Some("x")), plan("b", false, Some("x")), plan("c", true, Some("y"))];
    assert_eq!(refresh_quota(None, &v, None), vec![0, 2]);
    assert_eq!(refresh_quota(Some(true), &v, Some("c")), vec![2]);
    assert!(refresh_quota(Some(false), &v, None).is_empty());
    assert!(refresh_quota(None, &vec![plan("a", true, None)], None).is_empty());
    let mut h = Host::new(None, Some("desk.lan"), None);
    assert_eq!(h.name, "desk");
    assert!(h.viewport_changed(true, 7, 80, 60));
    assert_eq!(h.chat_top, None, "it follows the newest");
    h.chat_top = Some(3);
    assert!(!h.viewport_changed(true, 7, 80, 80));
    assert_eq!(h.chat_top, Some(7));
    let mut s = Startup::new();
    s.pending_model = Some("a/b".into());
    assert_eq!(s.take_pending_model().as_deref(), Some("a/b"));
    assert_eq!(s.take_pending_model(), None);
}
