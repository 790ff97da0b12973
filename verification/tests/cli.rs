//! What the one-shot commands print.

use neosh::cli::managing::{
    run_plugin_list, run_plugin_remove, run_plugin_update, run_trust, run_trust_list,
    run_trust_revoke, Listed, Removing,
};
use neosh::cli::{
    default_system_prompt, friendly, instance_row, is_client, means_yes, path_row, permission_name,
    plugin_row, recorded_turns, removal, run_init, run_status, run_stop, run_swarm_id,
    say_installed, say_lack, say_stopping, show_covered, trust_note, Lack, Removal, RunningTurn,
    Started, Status, Trust,
};
use neosh::host::calls::PluginPermission;

#[test]
fn a_duration_is_said_the_way_a_person_would() {
    assert_eq!(friendly(0), "0s");
    assert_eq!(friendly(59), "59s");
    assert_eq!(friendly(60), "1m");
    assert_eq!(friendly(3599), "59m");
    assert_eq!(friendly(3600), "1h 00m");
    assert_eq!(friendly(45_299), "12h 34m");
}

#[test]
fn a_terminal_is_a_client_unless_somebody_says_otherwise() {
    let plain = Started {
        serve: false,
        no_daemon: false,
        clean: false,
        terminal: true,
        mock: false,
        list_models: false,
    };
    assert!(is_client(plain));
    assert!(!is_client(Started { serve: true, ..plain }));
    assert!(!is_client(Started { no_daemon: true, ..plain }));
    assert!(!is_client(Started { clean: true, ..plain }));
    assert!(!is_client(Started { terminal: false, ..plain }));
    assert!(!is_client(Started { mock: true, ..plain }));
    assert!(!is_client(Started { list_models: true, ..plain }));
    assert!(default_system_prompt().starts_with("You are the agent inside neosh"));
}

#[test]
fn a_status_says_what_is_running() {
    assert_eq!(run_status(None, "/s"), vec!["no workspace running (/s)"]);
    let mut s = Status {
        uptime_secs: 61,
        conversations: 1,
        attached: true,
        idle_secs: 0,
        running: vec![],
    };
    assert_eq!(
        run_status(Some(&s), "/s"),
        vec![
            "running  \u{b7}  up 1m  \u{b7}  1 conversation  \u{b7}  a terminal is attached",
            "nothing running"
        ]
    );
    s.attached = false;
    s.conversations = 2;
    s.idle_secs = 5;
    s.running.push(RunningTurn { elapsed_secs: 75, label: "fix it".into(), cwd: "/w".into() });
    assert_eq!(
        run_status(Some(&s), "/s"),
        vec![
            "running  \u{b7}  up 1m  \u{b7}  2 conversations  \u{b7}  nobody watching for 5s",
            "",
            "        1m  fix it  (/w)"
        ]
    );
    assert_eq!(say_stopping(&s.running[0]), "stopping after 1m: fix it");
    assert_eq!(run_stop(true, "/s"), "stopped");
    assert_eq!(run_stop(false, "/s"), "no workspace running (/s)");
}

#[test]
fn the_lines_to_paste_name_this_machine() {
    let lines = run_swarm_id("KEY", "desk");
    assert_eq!(lines[0], "KEY");
    assert_eq!(lines[5], "  addr = \"desk:7717\"   # whatever your network calls this machine");
    assert_eq!(lines[6], "  id   = \"KEY\"");
    assert_eq!(lines[7], "  name = \"desk\"");
}

#[test]
fn a_first_configuration_says_what_was_written() {
    let lines = run_init(&vec!["/c/init.ts".into()], &vec!["/c/config.toml".into()], false, "/c/init.ts");
    assert_eq!(
        lines,
        vec![
            "wrote   /c/init.ts",
            "kept    /c/config.toml (--force to replace)",
            "\nEdit /c/init.ts. Run `npx tsc --noEmit` there for type checking."
        ]
    );
    assert_eq!(
        run_init(&vec![], &vec![], true, ""),
        vec!["\nEdit .neosh/config.toml, then `neosh trust` to let it run code."]
    );
}

#[test]
fn a_path_is_listed_with_whether_it_is_there() {
    assert_eq!(path_row("config", "/c", true, ""), format!("{:<9} /c", "config"));
    assert_eq!(
        path_row("  plugins", "/p", false, trust_note(Trust::Trusted)),
        "  plugins /p  (does not exist)   trusted"
    );
    assert_eq!(trust_note(Trust::NoProjectConfig), "");
    assert_eq!(trust_note(Trust::Untrusted), "   untrusted \u{2014} run `neosh trust`");
    assert_eq!(
        trust_note(Trust::Stale),
        "   changed since trusted \u{2014} review, then `neosh trust`"
    );
    assert_eq!(show_covered("/p/a", Some("x\n\n")), vec!["--- /p/a ---", "x"]);
    assert_eq!(show_covered("/p/b", None), vec!["--- /p/b --- (not shown)"]);
}

#[test]
fn a_plugin_is_listed_with_what_it_may_do() {
    let may = vec![PluginPermission::Tools, PluginPermission::VcsWrite];
    assert_eq!(permission_name(PluginPermission::HooksBlocking), "hooks_blocking");
    assert_eq!(
        say_installed("git", "1.0", &may),
        vec![
            "installed git 1.0",
            "  it may: tools, vcs_write",
            "\nIt loads when a workspace next starts. `neosh stop` ends the running one."
        ]
    );
    assert_eq!(
        say_installed("git", "1.0", &vec![])[1],
        "  it declared no permissions: no tools, no providers, no blocking hooks."
    );
    assert_eq!(
        plugin_row("git", "1.0", "bundled", &may),
        format!("{:<20} {:<10} bundled  [tools vcs_write]", "git", "1.0")
    );
    assert_eq!(
        plugin_row("git", "1.0", "bundled", &vec![]),
        format!("{:<20} {:<10} bundled", "git", "1.0")
    );
}

#[test]
fn what_cannot_be_undone_is_asked_about() {
    assert_eq!(removal(true, false), Removal::Go);
    assert_eq!(removal(false, true), Removal::Ask);
    assert_eq!(removal(false, false), Removal::Refuse);
    assert!(means_yes(" y\n") && means_yes("Y") && means_yes("yes"));
    assert!(!means_yes("") && !means_yes("YES") && !means_yes("no"));
}

#[test]
fn a_blank_line_separates_recorded_turns() {
    assert_eq!(recorded_turns("a\nb\n\nc\n\n\n\n \n"), vec!["a\nb", "c"]);
    assert!(recorded_turns("").is_empty());
    assert_eq!(recorded_turns("one"), vec!["one"]);
}

#[test]
fn an_instance_without_models_says_why() {
    assert_eq!(instance_row("a", "A", None), "a \u{2014} A");
    assert_eq!(instance_row("a", "A", Some("no key")), "a \u{2014} A  (no key)");
    assert_eq!(
        say_lack(&Lack::Unreachable(Some("http://x".into()))),
        "    (nothing reachable at http://x)"
    );
    assert_eq!(
        say_lack(&Lack::Unreachable(None)),
        "    (nothing reachable at the configured address)"
    );
    assert_eq!(
        say_lack(&Lack::NeedsKey),
        "    (no models listed \u{2014} discovery needs a key)"
    );
}

#[test]
fn plugins_are_listed_updated_and_removed() {
    assert_eq!(run_plugin_list(&vec![]), vec!["no plugins."]);
    let all = vec![
        Listed {
            name: "git".into(),
            version: "1.0".into(),
            origin: "bundled".into(),
            permissions: vec![],
            dir: None,
            remote: None,
        },
        Listed {
            name: "x".into(),
            version: "2".into(),
            origin: "installed".into(),
            permissions: vec![PluginPermission::Tools],
            dir: Some("/d/x".into()),
            remote: Some("https://h/x".into()),
        },
    ];
    assert_eq!(
        run_plugin_list(&all),
        vec![
            format!("{:<20} {:<10} bundled", "git", "1.0"),
            format!("{:<20} {:<10} installed  [tools]", "x", "2"),
            format!("{:<20} /d/x", ""),
            format!("{:<20} https://h/x", ""),
        ]
    );
    assert_eq!(run_plugin_update(&vec![]), vec!["already up to date."]);
    assert_eq!(
        run_plugin_update(&vec![("x".into(), "a..b".into())]),
        vec![
            "x  a..b",
            "\nThe running workspace has the old copy. `neosh stop` to pick these up."
        ]
    );
    assert!(matches!(run_plugin_remove("x", "/d/x", false, false, None), Removing::Refuse(s)
        if s == "removing x deletes /d/x and cannot be undone.\nNobody is here to ask, so pass --yes if you meant it."));
    assert!(matches!(run_plugin_remove("x", "/d/x", false, true, None), Removing::Ask(s)
        if s == "Delete /d/x and everything in it? [y/N] "));
    assert!(matches!(run_plugin_remove("x", "/d/x", false, true, Some("no\n")),
        Removing::Leave("left alone.")));
    assert!(matches!(run_plugin_remove("x", "/d/x", false, true, Some(" yes\n")),
        Removing::Delete(s) if s == "removed x (/d/x)"));
    assert!(matches!(run_plugin_remove("x", "/d/x", true, false, None), Removing::Delete(_)));
}

#[test]
fn trust_is_listed_given_and_withdrawn() {
    assert_eq!(run_trust_list(&vec![]), vec!["no trusted projects"]);
    assert_eq!(run_trust_list(&vec!["/a".into()]), vec!["/a"]);
    assert_eq!(run_trust_revoke("/a", true), "revoked trust for /a");
    assert_eq!(run_trust_revoke("/a", false), "/a was not trusted");
    let files = vec![("/a/.neosh/x".into(), Some("hi\n\n".into())), ("/a/.neosh/y".into(), None)];
    assert_eq!(
        run_trust("/a/.neosh", &files),
        vec![
            "--- /a/.neosh/x ---",
            "hi",
            "--- /a/.neosh/y --- (not shown)",
            "\ntrusted /a/.neosh",
            "Editing these files revokes trust; run `neosh trust` again after reviewing.",
        ]
    );
}
