use peter_prompt::annotations::{
    doc_comment, enum_template, lua_class_def, lua_type, struct_def_template, struct_template,
    FieldDef, FieldsDef, RustType, VariantDef,
};

fn path(name: &str, args: Vec<RustType>) -> RustType {
    RustType::Path { name: name.to_string(), args }
}

#[test]
fn primitive_and_container_types() {
    assert_eq!(lua_type(&path("u32", vec![])).text, "integer");
    assert_eq!(lua_type(&path("f64", vec![])).text, "number");
    assert_eq!(lua_type(&path("bool", vec![])).text, "boolean");
    assert_eq!(lua_type(&path("String", vec![])).text, "string");
    assert_eq!(lua_type(&RustType::Other).text, "any");
    let t = path("Option", vec![path("Vec", vec![path("u8", vec![])])]);
    assert_eq!(lua_type(&t).text, "integer[]?");
    let m = path("HashMap", vec![path("String", vec![]), path("String", vec![])]);
    assert_eq!(lua_type(&m).text, "table<string, string>");
    assert_eq!(lua_type(&path("BTreeSet", vec![path("i64", vec![])])).text, "table<integer, boolean>");
    assert_eq!(lua_type(&path("Vec", vec![])).text, "any[]");
    assert_eq!(lua_type(&path("HashMap", vec![path("u8", vec![])])).text, "table<any, any>");
}

#[test]
fn named_types_are_nested() {
    let m = lua_type(&path("Option", vec![path("LuaType", vec![])]));
    assert_eq!(m.text, "LuaType?");
    match m.nested {
        Some(RustType::Path { name, args }) => {
            assert_eq!(name, "LuaType");
            assert!(args.is_empty());
        }
        _ => panic!("expected a nested type"),
    }
    assert!(lua_type(&path("HashMap", vec![path("String", vec![]), path("Foo", vec![])])).nested.is_none());
}

#[test]
fn doc_comments_are_joined() {
    let docs = vec![" Depth of ".to_string(), "   ".to_string(), "directories".to_string()];
    assert_eq!(doc_comment(&docs), Some("Depth of directories".to_string()));
    assert_eq!(doc_comment(&[" ".to_string()]), None);
    assert_eq!(doc_comment(&[]), None);
}

#[test]
fn struct_class_template() {
    let fields = vec![
        FieldDef {
            name: "depth".to_string(),
            ty: path("usize", vec![]),
            docs: vec![" Depth of directories to show (upwards)".to_string()],
        },
        FieldDef { name: "lua_type".to_string(), ty: path("LuaType", vec![]), docs: vec![] },
    ];
    let (t, nested) = struct_template(&[" Settings".to_string()], &fields);
    assert_eq!(
        t,
        "--- Settings\n---@class {{FULL_NAME}}\n---@field depth integer Depth of directories to show (upwards)\n---@field lua_type LuaType"
    );
    assert_eq!(nested.len(), 1);
    assert_eq!(
        lua_class_def(&t, "Peter.Cwd.Config"),
        "--- Settings\n---@class Peter.Cwd.Config\n---@field depth integer Depth of directories to show (upwards)\n---@field lua_type LuaType"
    );
}

#[test]
fn enum_alias_template() {
    let vs = vec![
        VariantDef { name: "Lua".to_string(), is_unit: true },
        VariantDef { name: "LuaJIT".to_string(), is_unit: true },
    ];
    let t = enum_template(&[], &vs).unwrap();
    assert_eq!(t, "---@alias {{FULL_NAME}} \"Lua\"|\"LuaJIT\"");
    assert_eq!(lua_class_def(&t, "LuaType"), "---@alias LuaType \"Lua\"|\"LuaJIT\"");
    let bad = vec![VariantDef { name: "Foo".to_string(), is_unit: false }];
    assert!(enum_template(&[], &bad).unwrap_err().starts_with("LuaAnnotated on an enum only supports unit variants"));
}

#[test]
fn only_named_fields_get_a_class() {
    let fields = vec![FieldDef { name: "depth".to_string(), ty: path("usize", vec![]), docs: vec![] }];
    let (template, nested) = struct_def_template(&[], &FieldsDef::Named(fields)).unwrap();
    assert_eq!(template, "---@class {{FULL_NAME}}\n---@field depth integer");
    assert!(nested.is_empty());
    let message = "LuaAnnotated requires named fields (no tuple or unit structs)";
    assert_eq!(struct_def_template(&[], &FieldsDef::Tuple).err().unwrap(), message);
    assert_eq!(struct_def_template(&[], &FieldsDef::Unit).err().unwrap(), message);
}
