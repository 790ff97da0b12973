//! Where everything lives.

use neosh::paths::spelling::{path_among, same_path};
use neosh::paths::{default_worktree_root, env_dir, expand_tilde, tilde, Overrides, Paths, Standard};

#[test]
fn an_explicit_config_dir_wins_over_the_environment() {
    let env = Overrides { config: Some("/tmp/env".into()), ..Default::default() };
    let p = Paths::resolve(Some("/tmp/explicit".into()), env, false);
    assert_eq!(p.config, "/tmp/explicit");
    assert_eq!(p.init_script(), "/tmp/explicit/init.ts");
}

#[test]
fn the_config_layout_is_what_the_docs_promise() {
    let p = Paths::resolve(Some("/c".into()), Overrides::default(), false);
    assert_eq!(p.config_file(), "/c/config.toml");
    assert_eq!(p.plugin_dir(), "/c/plugins");
    assert_eq!(p.tsconfig(), "/c/tsconfig.json");
    assert_eq!(p.api_types(), "/c/types");
}

#[test]
fn project_paths_hang_off_the_workspace_root() {
    let cwd = "/work/repo";
    assert_eq!(Paths::project_config(cwd), "/work/repo/.neosh/config.toml");
    assert_eq!(Paths::project_init(cwd), "/work/repo/.neosh/init.ts");
}

#[test]
fn an_empty_env_override_is_treated_as_unset() {
    // A wrapper script exporting an empty var must not silently relocate the config to `.`.
    assert_eq!(env_dir(Some(""), None), None);
    assert_eq!(env_dir(None, None), None);
    assert_eq!(env_dir(Some("~/c"), Some("/home/a")).as_deref(), Some("/home/a/c"));
}

#[test]
fn the_environment_wins_over_the_platform() {
    let dirs = || {
        Some(Standard {
            config: "/p/config".into(),
            data: "/p/data".into(),
            state: Some("/p/state".into()),
            cache: "/p/cache".into(),
        })
    };
    let env = Overrides { state: Some("/e/state".into()), ..Default::default() };
    let p = Paths::resolve_from(None, env, dirs(), true);
    assert_eq!(p.config, "/p/config");
    assert_eq!(p.state, "/e/state");
    assert_eq!(p.trust_store(), "/e/state/trust.json");
    assert_eq!(p.installed_plugin_dir(), "/p/data/plugins");
    assert!(p.clean);
}

#[test]
fn a_home_can_be_said_and_read() {
    assert_eq!(tilde("/home/a/src", Some("/home/a")), "~/src");
    assert_eq!(tilde("/home/ab", Some("/home/a")), "/home/ab");
    assert_eq!(expand_tilde("~/src", Some("/home/a")).as_deref(), Some("/home/a/src"));
    assert_eq!(expand_tilde("~b/src", Some("/home/a")), None);
    assert_eq!(expand_tilde("~", None), None);
    assert_eq!(default_worktree_root(Some("/home/a")), "/home/a/.nsh");
    assert_eq!(default_worktree_root(None), ".nsh");
}

#[test]
fn a_path_is_the_same_however_it_is_spelled() {
    for other in ["/a/b", "/a/b/", "/a//b", "/a/./b", "/./a/b/."] {
        assert!(same_path("/a/b", other), "{other}");
    }
    for other in ["a/b", "/a/b/c", "/a", "/a/../a/b", "/a/.b"] {
        assert!(!same_path("/a/b", other), "{other}");
    }
    assert!(!same_path("./a", "a"), "a dot it begins with is kept");
    assert!(same_path("a/.", "a") && same_path("", "") && !same_path("", "/"));
    assert!(path_among(&vec!["/p".into(), "/q/".into()], "/q"));
    assert!(!path_among(&vec!["/p".into()], "/p/q"));
    // Each agrees with the standard library's own idea of it.
    for (a, b) in [("/a/b", "/a//b/"), ("./a", "a"), ("a/./b", "a/b"), ("/", "//"), (".", "")] {
        assert_eq!(same_path(a, b), std::path::Path::new(a) == std::path::Path::new(b), "{a} {b}");
    }
}
