use peter_prompt::args::{error_prompt, init_snippet, parse_render_args, FISH_INIT_SNIPPET};
use peter_prompt::registry::{
    annotation_block, annotations_from_blocks, header, next_group_member, wrong_entry_error,
    ComponentTypes, GroupKind, Registry, ReturnedEntry, TableEntryAction,
};
use peter_prompt::text::to_pascal_case;

fn args(v: &[&str]) -> Vec<String> {
    v.iter().map(|s| s.to_string()).collect()
}

#[test]
fn render_args_defaults() {
    let r = parse_render_args(&[]);
    assert_eq!(r.last_status, 0);
    assert_eq!(r.bind_mode, "insert");
    assert!(!r.is_transient);
    assert_eq!(r.columns, 0);
}

#[test]
fn render_args_later_wins() {
    let r = parse_render_args(&args(&[
        "--last-status=1",
        "--columns=80",
        "--bind-mode=default",
        "--transient",
        "--last-status=x",
        "--unknown",
    ]));
    assert_eq!(r.last_status, 0);
    assert_eq!(r.columns, 80);
    assert_eq!(r.bind_mode, "default");
    assert!(r.is_transient);
    let r2 = parse_render_args(&args(&["--last-status=-127", "--columns=-1", "--transient=1"]));
    assert_eq!(r2.last_status, -127);
    assert_eq!(r2.columns, 0);
    assert!(!r2.is_transient);
}

#[test]
fn init_snippet_only_for_fish() {
    let s = init_snippet("fish").unwrap();
    assert_eq!(s, FISH_INIT_SNIPPET);
    assert!(s.starts_with("set -g fish_transient_prompt 1\n"));
    assert!(s.contains("peter_prompt --last-status=$last_status --bind-mode=$fish_bind_mode --columns=$COLUMNS --transient"));
    assert_eq!(init_snippet("bash"), None);
}

#[test]
fn error_prompt_text() {
    assert_eq!(
        error_prompt("lua error", "boom"),
        "\x1b[31;1m[peter lua error: boom]\x1b[0m \u{276f} "
    );
}

#[test]
fn register_keeps_first_place() {
    let mut r = Registry::new();
    r.register("jj");
    r.register("cwd");
    r.register("jj");
    assert_eq!(r.order, vec!["jj", "cwd"]);
    assert!(r.contains("cwd"));
    assert!(!r.contains("git"));
}

#[test]
fn groups_are_registered_and_replaced() {
    let mut r = Registry::new();
    r.register("jj");
    r.register("git");
    r.register_group("@vcs", GroupKind::FirstOf, vec!["jj".to_string(), "git".to_string()]);
    assert!(r.group("@vcs").is_some());
    assert!(r.group("@other").is_none());
    r.register_group("@vcs", GroupKind::All, vec!["git".to_string()]);
    assert_eq!(r.groups.len(), 1);
    let g = r.group("@vcs").unwrap();
    assert!(g.kind == GroupKind::All);
    assert_eq!(g.members, vec!["git"]);
}

#[test]
fn returned_entries_are_classified() {
    let mut r = Registry::new();
    r.register("cwd");
    r.register_group("@vcs", GroupKind::All, vec!["cwd".to_string()]);
    assert!(matches!(r.classify_entry("@align"), Ok(ReturnedEntry::Align)));
    assert!(matches!(r.classify_entry("@vcs"), Ok(ReturnedEntry::Group { name }) if name == "@vcs"));
    assert!(matches!(r.classify_entry("cwd"), Ok(ReturnedEntry::Component { name }) if name == "cwd"));
    match r.classify_entry("@nope") {
        Err(m) => assert_eq!(m, "'@nope' is not a known component group (known groups: @vcs)"),
        Ok(_) => panic!("expected an error"),
    }
    match r.classify_entry("nope") {
        Err(m) => assert_eq!(
            m,
            "'nope' is not a known component (no matching built-in, and a bare string can't define get_data)"
        ),
        Ok(_) => panic!("expected an error"),
    }
    assert_eq!(
        wrong_entry_error("number"),
        "expected a component (table) or a component name / \"@align\" / a group name (string) in the returned list, got number"
    );
}

#[test]
fn group_members_are_stepped() {
    assert_eq!(next_group_member(&GroupKind::All, 3, 0, true), Some(1));
    assert_eq!(next_group_member(&GroupKind::All, 3, 2, false), None);
    assert_eq!(next_group_member(&GroupKind::FirstOf, 3, 0, true), None);
    assert_eq!(next_group_member(&GroupKind::FirstOf, 3, 0, false), Some(1));
}

#[test]
fn annotations_file() {
    let order = vec!["jj".to_string(), "cwd".to_string()];
    let blocks = vec![
        "---@class Peter.Jj\n---@overload jj".to_string(),
        "---@class Peter.Cwd\n---@field depth integer\n---@overload cwd".to_string(),
    ];
    let out = annotations_from_blocks(&order, &blocks);
    let expected = format!(
        "{}\n---@class Peter.Jj\n\n---@class Peter.Cwd\n---@field depth integer\n\n---@alias Peter.ComponentName \"jj\"|\"cwd\"\n\n---@overload jj\n---@overload cwd\n---@param name Peter.ComponentName\n---@return any\nfunction _G.get_component(name) end\n",
        header()
    );
    assert_eq!(out, expected);
    assert!(header().starts_with("---@meta\n-- Type annotations for Peter"));
    assert!(header().ends_with("---@alias Peter.Segment { [1]: string, [2]: string }"));
}

#[test]
fn names_in_pascal_case() {
    assert_eq!(to_pascal_case("cwd"), "Cwd");
    assert_eq!(to_pascal_case("git_status"), "GitStatus");
    assert_eq!(to_pascal_case("my-lua__thing"), "MyLuaThing");
    assert_eq!(to_pascal_case("_x"), "X");
    assert_eq!(to_pascal_case(""), "");
    assert_eq!(to_pascal_case("straße"), "Straße");
    assert_eq!(to_pascal_case("ßx"), "SSx");
}

#[test]
fn registered_components_are_annotated() {
    assert_eq!(
        annotation_block("jj", None),
        "---@class Peter.Jj\n---@field name string\n---@field render fun(data: any): Peter.Segment[]\n---@field config any\n---@overload fun(name: \"jj\"): Peter.Jj"
    );
    let mut r = Registry::new();
    r.register("jj");
    r.register("cwd");
    let out = r.generate_lua_annotations(&[]);
    let expected = format!(
        "{}\n---@class Peter.Jj\n---@field name string\n---@field render fun(data: any): Peter.Segment[]\n---@field config any\n\n---@class Peter.Cwd\n---@field name string\n---@field render fun(data: any): Peter.Segment[]\n---@field config any\n\n---@alias Peter.ComponentName \"jj\"|\"cwd\"\n\n---@overload fun(name: \"jj\"): Peter.Jj\n---@overload fun(name: \"cwd\"): Peter.Cwd\n---@param name Peter.ComponentName\n---@return any\nfunction _G.get_component(name) end\n",
        header()
    );
    assert_eq!(out, expected);
}

#[test]
fn other_groups_are_left_alone() {
    let mut r = Registry::new();
    r.register("jj");
    r.register("git");
    r.register_group("@a", GroupKind::FirstOf, vec!["jj".to_string(), "git".to_string()]);
    r.register_group("@b", GroupKind::All, vec!["git".to_string()]);
    r.register_group("@b", GroupKind::FirstOf, vec!["jj".to_string()]);
    r.register("cwd");
    assert_eq!(r.groups.len(), 2);
    let a = r.group("@a").unwrap();
    assert!(a.kind == GroupKind::FirstOf);
    assert_eq!(a.members, vec!["jj", "git"]);
    let b = r.group("@b").unwrap();
    assert!(b.kind == GroupKind::FirstOf);
    assert_eq!(b.members, vec!["jj"]);
}

#[test]
fn table_entries_update_or_define() {
    let mut r = Registry::new();
    r.register("cwd");
    assert!(matches!(
        r.table_entry_action("cwd", true, false),
        TableEntryAction::Update { set_render: true, set_config: false }
    ));
    assert!(matches!(
        r.table_entry_action("cwd", false, true),
        TableEntryAction::Update { set_render: false, set_config: true }
    ));
    assert!(matches!(r.table_entry_action("mine", true, true), TableEntryAction::Define));
}

#[test]
fn described_types_reach_the_annotations() {
    let lua_types = ComponentTypes {
        data_template: Some("---@class {{FULL_NAME}}\n---@field version string".to_string()),
        config_template: Some("---@class {{FULL_NAME}}\n---@field lua_type LuaType".to_string()),
        nested_defs: vec!["---@alias LuaType \"Lua\"|\"LuaJIT\"".to_string()],
    };
    let block = "---@alias LuaType \"Lua\"|\"LuaJIT\"\n\n---@class Peter.Lua.Data\n---@field version string\n\n---@class Peter.Lua.Config\n---@field lua_type LuaType\n\n---@class Peter.Lua\n---@field name string\n---@field render fun(data: Peter.Lua.Data): Peter.Segment[]\n---@field config Peter.Lua.Config\n---@overload fun(name: \"lua\"): Peter.Lua";
    assert_eq!(annotation_block("lua", Some(&lua_types)), block);
    let data_only = ComponentTypes {
        data_template: Some("---@class {{FULL_NAME}}\n---@field version string".to_string()),
        config_template: None,
        nested_defs: vec![],
    };
    assert_eq!(
        annotation_block("rust", Some(&data_only)),
        "---@class Peter.Rust.Data\n---@field version string\n\n---@class Peter.Rust\n---@field name string\n---@field render fun(data: Peter.Rust.Data): Peter.Segment[]\n---@field config any\n---@overload fun(name: \"rust\"): Peter.Rust"
    );
    let mut r = Registry::new();
    r.register("lua");
    r.register("mine");
    let out = r.generate_lua_annotations(&[lua_types]);
    let expected = format!(
        "{}\n---@alias LuaType \"Lua\"|\"LuaJIT\"\n\n---@class Peter.Lua.Data\n---@field version string\n\n---@class Peter.Lua.Config\n---@field lua_type LuaType\n\n---@class Peter.Lua\n---@field name string\n---@field render fun(data: Peter.Lua.Data): Peter.Segment[]\n---@field config Peter.Lua.Config\n\n---@class Peter.Mine\n---@field name string\n---@field render fun(data: any): Peter.Segment[]\n---@field config any\n\n---@alias Peter.ComponentName \"lua\"|\"mine\"\n\n---@overload fun(name: \"lua\"): Peter.Lua\n---@overload fun(name: \"mine\"): Peter.Mine\n---@param name Peter.ComponentName\n---@return any\nfunction _G.get_component(name) end\n",
        header()
    );
    assert_eq!(out, expected);
}

#[test]
fn unmodified_snapshot_acts_as_the_name() {
    let mut r = Registry::new();
    r.register("cwd");
    assert!(matches!(r.classify_entry("cwd"), Ok(ReturnedEntry::Component { ref name }) if name == "cwd"));
    assert!(matches!(
        r.table_entry_action("cwd", false, true),
        TableEntryAction::Update { set_render: false, set_config: true }
    ));
}
