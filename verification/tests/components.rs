use peter_prompt::component::{any_pattern_matches, component_enabled, dir_matches_pattern, Context, DirEntry, Dynamic};
use peter_prompt::components::cwd::{apply_substitutions, get_cwd_data, get_short_path, render_cwd, CwdConfig};
use peter_prompt::components::git::{
    detect_repo_state, get_git_data, git_data_from_outputs, parse_branch_status, parse_shortstat,
    render_git, GitData, RepoMarkers,
};
use peter_prompt::components::jj::{count_diff_summary, get_jj_data, parse_jj_log, render_jj, JJData};
use peter_prompt::components::lua::{self, LuaConfig, LuaType};
use peter_prompt::components::{python, rust};
use peter_prompt::color::{Color, Segment};

fn ctx(cwd: &str) -> Context {
    Context {
        cwd: cwd.to_string(),
        term_width: 80,
        last_status: 0,
        bind_mode: "insert".to_string(),
        is_transient: false,
    }
}

fn texts(segs: &[Segment]) -> Vec<(String, Option<Color>)> {
    segs.iter().map(|s| (s.text.clone(), s.color)).collect()
}

fn file(name: &str) -> DirEntry {
    DirEntry { name: name.to_string(), is_file: true, is_dir: false }
}

fn dir(name: &str) -> DirEntry {
    DirEntry { name: name.to_string(), is_file: false, is_dir: true }
}

#[test]
fn patterns_match_extensions_directories_and_names() {
    let entries = vec![file("init.lua"), dir("lua"), file("Cargo.toml"), file(".bashrc"), file("x.")];
    assert!(dir_matches_pattern(&entries, "*.lua"));
    assert!(dir_matches_pattern(&entries, "lua/"));
    assert!(!dir_matches_pattern(&entries, "Cargo.toml/"));
    assert!(dir_matches_pattern(&entries, "Cargo.toml"));
    assert!(!dir_matches_pattern(&entries, "*.bashrc"));
    assert!(dir_matches_pattern(&entries, "*."));
    assert!(!dir_matches_pattern(&entries, "*.rs"));
    let pats = vec!["*.rs".to_string(), "Cargo.toml".to_string()];
    assert!(any_pattern_matches(&entries, &pats));
    assert!(!any_pattern_matches(&[], &pats));
}

#[test]
fn enabled_needs_a_matching_pattern_when_there_are_patterns() {
    let entries = vec![file("main.py")];
    let pats = vec!["*.py".to_string()];
    assert!(component_enabled(true, &pats, &entries));
    assert!(!component_enabled(false, &pats, &entries));
    assert!(component_enabled(true, &[], &[]));
    assert!(!component_enabled(true, &["*.rs".to_string()], &entries));
}

#[test]
fn dynamic_values_resolve() {
    let c = ctx("/tmp");
    let s: Dynamic<bool, fn(&Context) -> bool> = Dynamic::from_value(true);
    assert!(s.resolve(&c));
    let d = Dynamic::new_dyn(|ctx: &Context| ctx.cwd == "/tmp");
    assert!(d.resolve(&c));
    let f: Dynamic<bool, fn(&Context) -> bool> = Dynamic::from(false);
    assert!(!f.resolve(&c));
    let g: Dynamic<bool, fn(&Context) -> bool> = true.into();
    assert!(g.resolve(&c));
}

#[test]
fn short_path_keeps_the_last_components() {
    assert_eq!(get_short_path("/home/user/projects/peter", 3), "user/projects/peter");
    assert_eq!(get_short_path("/home//user/", 3), "home/user");
    assert_eq!(get_short_path("/a/b", 0), "");
    assert_eq!(get_short_path("/", 3), "");
    let once = get_short_path("/1/2/3/4/5", 2);
    assert_eq!(once, "4/5");
    assert_eq!(get_short_path(&once, 2), once);
}

#[test]
fn cwd_data_substitutes_then_shortens() {
    let config = CwdConfig {
        depth: 2,
        substitutions: vec![("/home/user".to_string(), "~".to_string())],
    };
    let d = get_cwd_data(&ctx("/home/user/src/peter"), &config);
    assert_eq!(d.short_path, "src/peter");
    assert_eq!(apply_substitutions("/home/user/x".to_string(), &config.substitutions), "~/x");
    let d2 = get_cwd_data(&ctx("/home/user"), &config);
    assert_eq!(d2.short_path, "~");
    let default = CwdConfig::default();
    assert_eq!(default.depth, 3);
    assert!(default.substitutions.is_empty());
    assert_eq!(
        texts(&render_cwd(&d)),
        vec![(" src/peter".to_string(), Some(Color { r: 255, g: 165, b: 0 }))]
    );
}

#[test]
fn repo_state_takes_the_first_marker() {
    let none = RepoMarkers {
        rebase_merge_dir: false,
        rebase_apply_dir: false,
        merge_head_file: false,
        cherry_pick_head_file: false,
        bisect_log_file: false,
        revert_head_file: false,
    };
    assert_eq!(detect_repo_state(&none), None);
    let m = RepoMarkers { merge_head_file: true, bisect_log_file: true, ..none };
    assert_eq!(detect_repo_state(&m), Some("MERGING".to_string()));
    let r = RepoMarkers { rebase_apply_dir: true, ..none };
    assert_eq!(detect_repo_state(&r), Some("REBASING".to_string()));
}

const STATUS: &str = "# branch.oid 0123456789abcdef\n# branch.head main\n# branch.upstream origin/main\n# branch.ab +2 -3\n1 .M N... 100644 100644 100644 a b f.rs\n";

#[test]
fn branch_status_is_read() {
    assert_eq!(
        parse_branch_status(STATUS),
        ("main".to_string(), "0123456".to_string(), 2, 3)
    );
    assert_eq!(
        parse_branch_status("# branch.oid (initial)\n# branch.head (detached)\n"),
        ("(detached)".to_string(), String::new(), 0, 0)
    );
    assert_eq!(parse_branch_status("# branch.ab +x -4"), (String::new(), String::new(), 0, 4));
}

#[test]
fn shortstat_is_read() {
    assert_eq!(
        parse_shortstat(" 3 files changed, 10 insertions(+), 2 deletions(-)\n"),
        (3, 10, 2)
    );
    assert_eq!(parse_shortstat(" 1 file changed, 1 deletion(-)"), (1, 0, 1));
    assert_eq!(parse_shortstat(""), (0, 0, 0));
}

fn no_markers() -> RepoMarkers {
    RepoMarkers {
        rebase_merge_dir: false,
        rebase_apply_dir: false,
        merge_head_file: false,
        cherry_pick_head_file: false,
        bisect_log_file: false,
        revert_head_file: false,
    }
}

#[test]
fn detached_head_shows_the_hash() {
    let d = git_data_from_outputs(&no_markers(), "# branch.oid abcdef123\n# branch.head (detached)\n", None);
    assert_eq!(d.branch, "abcdef1");
    assert_eq!(d.commit_hash, "abcdef1");
    assert_eq!((d.files_changed, d.insertions, d.deletions), (0, 0, 0));
    assert!(get_git_data(None, Some(STATUS), None).is_none());
    assert!(get_git_data(Some(&no_markers()), None, None).is_none());
    let g = get_git_data(Some(&no_markers()), Some(STATUS), Some("2 files changed, 5 insertions(+)")).unwrap();
    assert_eq!((g.files_changed, g.insertions, g.deletions), (2, 5, 0));
}

#[test]
fn git_segments() {
    let d = GitData {
        branch: "main".to_string(),
        commit_hash: "0123456".to_string(),
        repo_state: Some("MERGING".to_string()),
        ahead: 2,
        behind: 0,
        insertions: 10,
        deletions: 0,
        files_changed: 3,
    };
    let blue = Color { r: 0x5f, g: 0xaf, b: 0xff };
    let red = Color { r: 0xff, g: 0x5f, b: 0x5f };
    let green = Color { r: 0x5f, g: 0xaf, b: 0x5f };
    let gray = Color { r: 0xbc, g: 0xbc, b: 0xbc };
    let purple = Color { r: 0xaf, g: 0x87, b: 0xd7 };
    let dark = Color { r: 0x44, g: 0x44, b: 0x44 };
    assert_eq!(
        texts(&render_git(&Some(d))),
        vec![
            ("\u{e702} ".to_string(), Some(blue)),
            ("MERGING ".to_string(), Some(red)),
            ("\u{e725} main".to_string(), Some(green)),
            (" 0123456".to_string(), Some(gray)),
            (" \u{2191}2".to_string(), Some(purple)),
            (" |  ".to_string(), Some(dark)),
            ("+10 ".to_string(), Some(green)),
        ]
    );
    assert!(render_git(&None).is_empty());
}

#[test]
fn jj_summary_and_log() {
    assert_eq!(count_diff_summary("A a\nM b\nM c\nD d\nC e\nX f\nAx\n"), (1, 2, 1, 1));
    assert_eq!(
        parse_jj_log("kxyz\nfirst line\nsecond\n"),
        ("kxyz".to_string(), "first line\nsecond".to_string())
    );
    assert_eq!(
        parse_jj_log(""),
        ("????".to_string(), "(no description set)".to_string())
    );
    assert_eq!(
        parse_jj_log("  \n  \n"),
        ("????".to_string(), "(no description set)".to_string())
    );
    assert!(get_jj_data(false, Some("A a"), Some("k")).is_none());
    let d = get_jj_data(true, None, None).unwrap();
    assert_eq!(d.change_id, "????");
    assert_eq!(d.files_added, 0);
}

#[test]
fn jj_segments() {
    let d = JJData {
        change_id: "kxyz".to_string(),
        files_added: 1,
        files_modified: 2,
        files_deleted: 0,
        files_conflict: 0,
        description: "fix it\nmore".to_string(),
    };
    let purple = Color { r: 0xaf, g: 0x87, b: 0xd7 };
    assert_eq!(
        texts(&render_jj(&Some(d))),
        vec![
            ("jj  ".to_string(), Some(Color { r: 0x5f, g: 0xaf, b: 0xff })),
            ("!2 ".to_string(), Some(purple)),
            ("+1 ".to_string(), Some(purple)),
            ("k".to_string(), Some(Color { r: 0xd7, g: 0x87, b: 0xd7 })),
            ("xyz ".to_string(), Some(Color { r: 0xbc, g: 0xbc, b: 0xbc })),
            ("|  ".to_string(), Some(Color { r: 0x44, g: 0x44, b: 0x44 })),
            ("fix it".to_string(), Some(Color { r: 0x5f, g: 0xaf, b: 0x5f })),
        ]
    );
    let empty = JJData { change_id: String::new(), description: String::new(), files_added: 0, files_modified: 0, files_deleted: 0, files_conflict: 0 };
    let segs = render_jj(&Some(empty));
    assert_eq!(segs[1].text, "");
    assert_eq!(segs[2].text, " ");
    assert_eq!(segs[4].text, "");
}

#[test]
fn tool_versions() {
    assert_eq!(LuaType::Lua.binary_name(), "lua");
    assert_eq!(LuaType::LuaJIT.binary_name(), "luajit");
    assert!(matches!(LuaConfig::default().lua_type, LuaType::Lua));
    assert_eq!(lua::version_from_output(Some("Lua 5.4.6  Copyright (C) 1994-2023")).version, "5.4.6");
    assert_eq!(lua::version_from_output(None).version, "");
    assert_eq!(rust::version_from_output(Some("rustc 1.80.0 (051478957 2024-07-21)\n")).version, "1.80.0");
    let outs = vec![None, Some("Python\n".to_string()), Some("Python 3.12.1\n".to_string())];
    assert_eq!(python::version_from_outputs(&outs).version, "3.12.1");
    assert_eq!(python::version_from_outputs(&[None, None]).version, "");
    let d = lua::LuaData { version: "5.4".to_string() };
    assert_eq!(
        texts(&lua::render(&d)),
        vec![(" \u{e620} 5.4".to_string(), Some(Color { r: 0x4e, g: 0x68, b: 0xb2 }))]
    );
    assert_eq!(python::render(&python::PythonData { version: "3".to_string() })[0].text, " \u{e606} 3");
    assert_eq!(rust::render(&rust::RustData { version: "1".to_string() })[0].color, Some(Color { r: 0xce, g: 0x41, b: 0x2b }));
}
