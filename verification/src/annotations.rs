//! LuaCATS annotations for configuration and data types: how a Rust type as
//! written maps to a Lua type, and the class and alias texts made from a
//! type's fields or variants.
use vstd::prelude::*;

use crate::text::{
    chars_of, join_from, join_strs, join_with, non_empty, push_str, replace, replace_all, str_eq,
    string_from_chars, string_push, trim, trim_chars,
};

verus! {

/// A Rust type as written in source: a path whose last segment has a name
/// and type arguments, or any other form.
pub enum RustType {
    Path { name: String, args: Vec<RustType> },
    Other,
}

/// A Rust type seen as a value.
pub ghost enum TypeView {
    Path(Seq<char>, Seq<TypeView>),
    Other,
}

pub open spec fn type_view(t: RustType) -> TypeView
    decreases t,
{
    match t {
        RustType::Path { name, args } => TypeView::Path(
            name@,
            Seq::new(
                args@.len(),
                |i: int|
                    if 0 <= i < args@.len() {
                        type_view(args@[i])
                    } else {
                        TypeView::Other
                    },
            ),
        ),
        RustType::Other => TypeView::Other,
    }
}


/// A copy of a type.
#[verifier::loop_isolation(false)]
pub fn clone_type(t: &RustType) -> (r: RustType)
    ensures
        type_view(r) == type_view(*t),
    decreases t,
{
    match t {
        RustType::Path { name, args } => {
            let mut out: Vec<RustType> = Vec::new();
            let mut i: usize = 0;
            while i < args.len()
                invariant
                    i <= args@.len(),
                    out@.len() == i,
                    forall|j: int| 0 <= j < i ==> type_view(#[trigger] out@[j]) == type_view(args@[j]),
                decreases args@.len() - i,
            {
                let c = clone_type(&args[i]);
                out.push(c);
                i = i + 1;
            }
            let r = RustType::Path { name: name.clone(), args: out };
            assert(type_view(r) =~= type_view(*t)) by {
                if let TypeView::Path(n1, a1) = type_view(r) {
                    if let TypeView::Path(n2, a2) = type_view(*t) {
                        assert(a1 =~= a2);
                    }
                }
            }
            r
        },
        RustType::Other => RustType::Other,
    }
}

pub open spec fn is_integer_name(n: Seq<char>) -> bool {
    n == "u8"@ || n == "u16"@ || n == "u32"@ || n == "u64"@ || n == "u128"@ || n == "usize"@ || n
        == "i8"@ || n == "i16"@ || n == "i32"@ || n == "i64"@ || n == "i128"@ || n == "isize"@
}

/// The LuaCATS spelling of a type: primitives by their Lua names, options
/// with `?`, sequences with `[]`, maps and sets as tables, and any other type
/// by its own name (a class that must be defined too).
pub open spec fn lua_text(t: TypeView) -> Seq<char>
    decreases t,
{
    match t {
        TypeView::Other => "any"@,
        TypeView::Path(name, args) => if is_integer_name(name) {
            "integer"@
        } else if name == "f32"@ || name == "f64"@ {
            "number"@
        } else if name == "bool"@ {
            "boolean"@
        } else if name == "String"@ || name == "str"@ {
            "string"@
        } else if name == "Option"@ {
            if args.len() > 0 {
                lua_text(args[0]) + "?"@
            } else {
                "any?"@
            }
        } else if name == "Vec"@ || name == "VecDeque"@ {
            if args.len() > 0 {
                lua_text(args[0]) + "[]"@
            } else {
                "any[]"@
            }
        } else if name == "HashMap"@ || name == "BTreeMap"@ {
            if args.len() >= 2 {
                "table<"@ + lua_text(args[0]) + ", "@ + lua_text(args[1]) + ">"@
            } else {
                "table<any, any>"@
            }
        } else if name == "HashSet"@ || name == "BTreeSet"@ {
            if args.len() > 0 {
                "table<"@ + lua_text(args[0]) + ", boolean>"@
            } else {
                "table<any, boolean>"@
            }
        } else {
            name
        },
    }
}

/// The type referenced by name that the mapping fell back to, if any: found
/// through options and sequences, dropped inside maps and sets.
pub open spec fn lua_nested(t: TypeView) -> Option<TypeView>
    decreases t,
{
    match t {
        TypeView::Other => None,
        TypeView::Path(name, args) => if is_integer_name(name) || name == "f32"@ || name == "f64"@
            || name == "bool"@ || name == "String"@ || name == "str"@ {
            None
        } else if name == "Option"@ || name == "Vec"@ || name == "VecDeque"@ {
            if args.len() > 0 {
                lua_nested(args[0])
            } else {
                None
            }
        } else if name == "HashMap"@ || name == "BTreeMap"@ || name == "HashSet"@ || name
            == "BTreeSet"@ {
            None
        } else {
            Some(t)
        },
    }
}

/// A type's LuaCATS text, and the type referenced by name along the way.
pub struct MappedType {
    pub text: String,
    pub nested: Option<RustType>,
}

fn is_integer_name_exec(n: &str) -> (r: bool)
    ensures
        r == is_integer_name(n@),
{
    str_eq(n, "u8") || str_eq(n, "u16") || str_eq(n, "u32") || str_eq(n, "u64") || str_eq(n, "u128")
        || str_eq(n, "usize") || str_eq(n, "i8") || str_eq(n, "i16") || str_eq(n, "i32") || str_eq(
        n,
        "i64",
    ) || str_eq(n, "i128") || str_eq(n, "isize")
}

/// Maps a Rust type to its LuaCATS annotation.
pub fn lua_type(ty: &RustType) -> (m: MappedType)
    ensures
        m.text@ == lua_text(type_view(*ty)),
        match m.nested {
            Some(n) => lua_nested(type_view(*ty)) == Some(type_view(n)),
            None => lua_nested(type_view(*ty)) is None,
        },
    decreases ty,
{
    match ty {
        RustType::Other => MappedType { text: "any".to_string(), nested: None },
        RustType::Path { name, args } => {
            let n = name.as_str();
            let ghost tv = type_view(*ty);
            assert(tv matches TypeView::Path(nn, aa) && nn == name@ && aa.len() == args@.len());
            assert(args@.len() > 0 ==> type_view(args@[0]) == (match tv { TypeView::Path(_, a) => a[0], TypeView::Other => TypeView::Other }));
            assert(args@.len() > 1 ==> type_view(args@[1]) == (match tv { TypeView::Path(_, a) => a[1], TypeView::Other => TypeView::Other }));
            if is_integer_name_exec(n) {
                MappedType { text: "integer".to_string(), nested: None }
            } else if str_eq(n, "f32") || str_eq(n, "f64") {
                MappedType { text: "number".to_string(), nested: None }
            } else if str_eq(n, "bool") {
                MappedType { text: "boolean".to_string(), nested: None }
            } else if str_eq(n, "String") || str_eq(n, "str") {
                MappedType { text: "string".to_string(), nested: None }
            } else if str_eq(n, "Option") {
                if args.len() > 0 {
                    let m = lua_type(&args[0]);
                    assert(lua_nested(tv) == lua_nested(type_view(args@[0])));
                    let mut text = m.text;
                    push_str(&mut text, "?");
                    MappedType { text, nested: m.nested }
                } else {
                    MappedType { text: "any?".to_string(), nested: None }
                }
            } else if str_eq(n, "Vec") || str_eq(n, "VecDeque") {
                if args.len() > 0 {
                    let m = lua_type(&args[0]);
                    assert(lua_nested(tv) == lua_nested(type_view(args@[0])));
                    let mut text = m.text;
                    push_str(&mut text, "[]");
                    MappedType { text, nested: m.nested }
                } else {
                    MappedType { text: "any[]".to_string(), nested: None }
                }
            } else if str_eq(n, "HashMap") || str_eq(n, "BTreeMap") {
                if args.len() >= 2 {
                    let mk = lua_type(&args[0]);
                    let mv = lua_type(&args[1]);
                    let mut text = "table<".to_string();
                    push_str(&mut text, mk.text.as_str());
                    push_str(&mut text, ", ");
                    push_str(&mut text, mv.text.as_str());
                    push_str(&mut text, ">");
                    MappedType { text, nested: None }
                } else {
                    MappedType { text: "table<any, any>".to_string(), nested: None }
                }
            } else if str_eq(n, "HashSet") || str_eq(n, "BTreeSet") {
                if args.len() > 0 {
                    let m = lua_type(&args[0]);
                    let mut text = "table<".to_string();
                    push_str(&mut text, m.text.as_str());
                    push_str(&mut text, ", boolean>");
                    MappedType { text, nested: None }
                } else {
                    MappedType { text: "table<any, boolean>".to_string(), nested: None }
                }
            } else {
                MappedType { text: name.clone(), nested: Some(clone_type(ty)) }
            }
        },
    }
}


/// The doc comment of an item from the texts of its doc attributes: each
/// trimmed, the blank ones left out, the rest joined by spaces; none when
/// nothing is left.
pub open spec fn doc_text(docs: Seq<String>) -> Option<Seq<char>> {
    let kept = non_empty(docs.map_values(|d: String| trim(d@)));
    if kept.len() == 0 {
        None
    } else {
        Some(join_with(kept, seq![' ']))
    }
}

/// Collects the doc comment of an item.
pub fn doc_comment(docs: &[String]) -> (r: Option<String>)
    ensures
        r matches Some(s) ==> doc_text(docs@) == Some(s@),
        r is None ==> doc_text(docs@) is None,
{
    let ghost tv = docs@.map_values(|d: String| trim(d@));
    let mut kept: Vec<String> = Vec::new();
    let mut i: usize = 0;
    assert(tv.subrange(0, 0) =~= Seq::<Seq<char>>::empty());
    assert(kept@.map_values(|t: String| t@) =~= Seq::<Seq<char>>::empty());
    while i < docs.len()
        invariant
            i <= docs@.len(),
            tv == docs@.map_values(|d: String| trim(d@)),
            kept@.map_values(|t: String| t@) == non_empty(tv.subrange(0, i as int)),
        decreases docs@.len() - i,
    {
        let v = chars_of(docs[i].as_str());
        let tr = trim_chars(&v);
        let ghost sub = tv.subrange(0, i + 1);
        assert(sub.drop_last() =~= tv.subrange(0, i as int));
        assert(sub.last() == tr@);
        if tr.len() > 0 {
            let ghost before = kept@;
            kept.push(string_from_chars(tr.as_slice()));
            assert(kept@.map_values(|t: String| t@) =~= before.map_values(|t: String| t@).push(tr@));
        }
        i = i + 1;
    }
    assert(tv.subrange(0, tv.len() as int) =~= tv);
    if kept.len() == 0 {
        None
    } else {
        proof {
            reveal_strlit(" ");
        }
        assert(" "@ =~= seq![' ']);
        Some(join_strs(&kept, " "))
    }
}

/// A named field of a struct: its name, its type, and its doc attribute
/// texts.
pub struct FieldDef {
    pub name: String,
    pub ty: RustType,
    pub docs: Vec<String>,
}

/// The `---@field` line of a field: name, Lua type, and doc comment if any.
pub open spec fn field_line_text(f: FieldDef) -> Seq<char> {
    "---@field "@ + f.name@ + seq![' '] + lua_text(type_view(f.ty)) + match doc_text(f.docs@) {
        Some(d) => seq![' '] + d,
        None => Seq::empty(),
    }
}

/// The doc line above a class or alias: `--- doc` and a newline, or nothing.
pub open spec fn class_doc_line(docs: Seq<String>) -> Seq<char> {
    match doc_text(docs) {
        Some(d) => "--- "@ + d + seq!['\n'],
        None => Seq::empty(),
    }
}

/// The placeholder that a class definition's full name replaces.
pub const FULL_NAME_PLACEHOLDER: &'static str = "{{FULL_NAME}}";

/// The class template of a struct: its doc line, `---@class` with the
/// placeholder, and one field line per field.
pub open spec fn struct_template_text(docs: Seq<String>, fields: Seq<FieldDef>) -> Seq<char> {
    class_doc_line(docs) + "---@class "@ + FULL_NAME_PLACEHOLDER@ + seq!['\n'] + join_with(
        fields.map_values(|f: FieldDef| field_line_text(f)),
        seq!['\n'],
    )
}

/// The types that the fields reference by name, in field order.
pub open spec fn fields_nested(fields: Seq<FieldDef>) -> Seq<TypeView>
    decreases fields.len(),
{
    if fields.len() == 0 {
        Seq::empty()
    } else {
        let r = fields_nested(fields.drop_last());
        match lua_nested(type_view(fields.last().ty)) {
            Some(n) => r.push(n),
            None => r,
        }
    }
}

fn push_doc_line(s: &mut String, docs: &[String])
    ensures
        final(s)@ == old(s)@ + class_doc_line(docs@),
{
    match doc_comment(docs) {
        Some(d) => {
            push_str(s, "--- ");
            push_str(s, d.as_str());
            string_push(s, '\n');
        },
        None => {
            assert(old(s)@ + class_doc_line(docs@) =~= old(s)@);
        },
    }
}

/// The class template of a struct with named fields, and the types its
/// fields reference by name.
pub fn struct_template(docs: &[String], fields: &[FieldDef]) -> (r: (String, Vec<RustType>))
    ensures
        r.0@ == struct_template_text(docs@, fields@),
        r.1@.map_values(|t: RustType| type_view(t)) == fields_nested(fields@),
{
    let ghost fl = fields@.map_values(|f: FieldDef| field_line_text(f));
    let mut lines: Vec<String> = Vec::new();
    let mut nested: Vec<RustType> = Vec::new();
    let mut i: usize = 0;
    assert(fields@.subrange(0, 0) =~= Seq::<FieldDef>::empty());
    assert(lines@.map_values(|t: String| t@) =~= fl.subrange(0, 0));
    assert(nested@.map_values(|t: RustType| type_view(t)) =~= Seq::<TypeView>::empty());
    while i < fields.len()
        invariant
            i <= fields@.len(),
            fl == fields@.map_values(|f: FieldDef| field_line_text(f)),
            lines@.map_values(|t: String| t@) == fl.subrange(0, i as int),
            nested@.map_values(|t: RustType| type_view(t)) == fields_nested(fields@.subrange(0, i as int)),
        decreases fields@.len() - i,
    {
        let f = &fields[i];
        let mapped = lua_type(&f.ty);
        let mut line = "---@field ".to_string();
        push_str(&mut line, f.name.as_str());
        string_push(&mut line, ' ');
        push_str(&mut line, mapped.text.as_str());
        match doc_comment(f.docs.as_slice()) {
            Some(d) => {
                string_push(&mut line, ' ');
                push_str(&mut line, d.as_str());
            },
            None => {},
        }
        assert(line@ =~= field_line_text(*f));
        let ghost before_lines = lines@;
        lines.push(line);
        assert(lines@.map_values(|t: String| t@) =~= before_lines.map_values(|t: String| t@).push(fl[i as int]));
        assert(fl.subrange(0, i + 1) =~= fl.subrange(0, i as int).push(fl[i as int]));
        let ghost sub = fields@.subrange(0, i + 1);
        assert(sub.drop_last() =~= fields@.subrange(0, i as int));
        assert(sub.last() == *f);
        let ghost before_nested = nested@;
        match mapped.nested {
            Some(n) => {
                nested.push(n);
                assert(nested@.map_values(|t: RustType| type_view(t)) =~= before_nested.map_values(|t: RustType| type_view(t)).push(type_view(n)));
            },
            None => {},
        }
        i = i + 1;
    }
    assert(fields@.subrange(0, fields@.len() as int) =~= fields@);
    assert(fl.subrange(0, fl.len() as int) =~= fl);
    let mut t = String::new();
    push_doc_line(&mut t, docs);
    push_str(&mut t, "---@class ");
    push_str(&mut t, FULL_NAME_PLACEHOLDER);
    string_push(&mut t, '\n');
    let block = join_from(&lines, 0, '\n');
    assert(lines@.map_values(|t: String| t@).skip(0) =~= fl);
    push_str(&mut t, block.as_str());
    assert(t@ =~= struct_template_text(docs@, fields@));
    (t, nested)
}

/// The fields of a struct: named, or a tuple or unit struct.
pub enum FieldsDef {
    Named(Vec<FieldDef>),
    Tuple,
    Unit,
}

/// Why a struct gets no class: it has no named fields.
pub open spec fn unnamed_fields_message() -> Seq<char> {
    "LuaAnnotated requires named fields (no tuple or unit structs)"@
}

/// The class template of a struct and the types its fields reference by
/// name; a tuple or unit struct gets none.
pub fn struct_def_template(docs: &[String], fields: &FieldsDef) -> (r: Result<(String, Vec<RustType>), String>)
    ensures
        r is Ok <==> fields is Named,
        r matches Ok(t) ==> fields matches FieldsDef::Named(fs) && t.0@ == struct_template_text(docs@, fs@)
            && t.1@.map_values(|n: RustType| type_view(n)) == fields_nested(fs@),
        r matches Err(m) ==> m@ == unnamed_fields_message(),
{
    match fields {
        FieldsDef::Named(fs) => Ok(struct_template(docs, fs.as_slice())),
        _ => Err("LuaAnnotated requires named fields (no tuple or unit structs)".to_string()),
    }
}

/// A variant of an enum: its name, and whether it carries no data.
pub struct VariantDef {
    pub name: String,
    pub is_unit: bool,
}

/// Why an enum gets no alias: one of its variants carries data.
pub open spec fn data_variant_message() -> Seq<char> {
    "LuaAnnotated on an enum only supports unit variants (no associated data) - it generates a ---@alias string union, matching how serde serializes a C-like enum"@
}

/// The alias template of a C-like enum: its doc line, then `---@alias` with
/// the placeholder and the union of the quoted variant names.
pub open spec fn enum_template_text(docs: Seq<String>, variants: Seq<VariantDef>) -> Seq<char> {
    class_doc_line(docs) + "---@alias "@ + FULL_NAME_PLACEHOLDER@ + seq![' '] + join_with(
        variants.map_values(|v: VariantDef| seq!['"'] + v.name@ + seq!['"']),
        seq!['|'],
    )
}

/// The alias template of an enum whose variants all carry no data.
pub fn enum_template(docs: &[String], variants: &[VariantDef]) -> (r: Result<String, String>)
    ensures
        r is Ok <==> forall|i: int| 0 <= i < variants@.len() ==> (#[trigger] variants@[i]).is_unit,
        r matches Ok(t) ==> t@ == enum_template_text(docs@, variants@),
        r matches Err(m) ==> m@ == data_variant_message(),
{
    let ghost qv = variants@.map_values(|v: VariantDef| seq!['"'] + v.name@ + seq!['"']);
    let mut quoted: Vec<String> = Vec::new();
    let mut i: usize = 0;
    assert(quoted@.map_values(|t: String| t@) =~= qv.subrange(0, 0));
    while i < variants.len()
        invariant
            i <= variants@.len(),
            qv == variants@.map_values(|v: VariantDef| seq!['"'] + v.name@ + seq!['"']),
            forall|j: int| 0 <= j < i ==> (#[trigger] variants@[j]).is_unit,
            quoted@.map_values(|t: String| t@) == qv.subrange(0, i as int),
        decreases variants@.len() - i,
    {
        if !variants[i].is_unit {
            return Err("LuaAnnotated on an enum only supports unit variants (no associated data) - it generates a ---@alias string union, matching how serde serializes a C-like enum".to_string());
        }
        let mut q = String::new();
        string_push(&mut q, '"');
        push_str(&mut q, variants[i].name.as_str());
        string_push(&mut q, '"');
        assert(q@ =~= qv[i as int]);
        let ghost before = quoted@;
        quoted.push(q);
        assert(quoted@.map_values(|t: String| t@) =~= before.map_values(|t: String| t@).push(qv[i as int]));
        assert(qv.subrange(0, i + 1) =~= qv.subrange(0, i as int).push(qv[i as int]));
        i = i + 1;
    }
    assert(qv.subrange(0, qv.len() as int) =~= qv);
    let mut t = String::new();
    push_doc_line(&mut t, docs);
    push_str(&mut t, "---@alias ");
    push_str(&mut t, FULL_NAME_PLACEHOLDER);
    string_push(&mut t, ' ');
    let union = join_from(&quoted, 0, '|');
    assert(quoted@.map_values(|t: String| t@).skip(0) =~= qv);
    push_str(&mut t, union.as_str());
    assert(t@ =~= enum_template_text(docs@, variants@));
    Ok(t)
}

/// A class or alias definition: the template with the full name put in for
/// the placeholder.
pub fn lua_class_def(template: &str, full_name: &str) -> (s: String)
    ensures
        s@ == replace_all(template@, FULL_NAME_PLACEHOLDER@, full_name@),
{
    replace(template, FULL_NAME_PLACEHOLDER, full_name)
}

} // verus!
