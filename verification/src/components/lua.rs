//! The Lua version component.
use vstd::prelude::*;

use crate::color::{push_segment, segs_view, Color, Segment};
use crate::text::{push_str, second_word, string_push, words};

verus! {

/// Which Lua interpreter to ask for its version.
pub enum LuaType {
    Lua,
    LuaJIT,
}

impl LuaType {
    /// The interpreter's executable.
    pub fn binary_name(&self) -> (r: String)
        ensures
            r@ == match self {
                LuaType::LuaJIT => "luajit"@,
                LuaType::Lua => "lua"@,
            },
    {
        match self {
            LuaType::LuaJIT => "luajit".to_string(),
            LuaType::Lua => "lua".to_string(),
        }
    }
}

/// Settings of the Lua component.
pub struct LuaConfig {
    pub lua_type: LuaType,
}

impl Default for LuaConfig {
    fn default() -> (c: LuaConfig)
        ensures
            c.lua_type == LuaType::Lua,
    {
        LuaConfig { lua_type: LuaType::Lua }
    }
}

/// What the Lua component shows.
pub struct LuaData {
    pub version: String,
}

/// The version from `lua -v`: its second word, or nothing when the
/// interpreter could not be run. The output must have a second word.
pub fn version_from_output(output: Option<&str>) -> (d: LuaData)
    requires
        output matches Some(t) ==> words(t@).len() >= 2,
    ensures
        d.version@ == match output {
            Some(t) => words(t@)[1],
            None => Seq::empty(),
        },
{
    match output {
        Some(t) => match second_word(t) {
            Some(w) => LuaData { version: w },
            None => LuaData { version: String::new() },
        },
        None => LuaData { version: String::new() },
    }
}

pub open spec fn lua_blue() -> Color {
    Color { r: 0x4e, g: 0x68, b: 0xb2 }
}

/// One blue segment: the Lua icon and the version.
pub fn render(data: &LuaData) -> (segs: Vec<Segment>)
    ensures
        segs_view(segs@) == seq![(seq![' ', '\u{e620}', ' '] + data.version@, Some(lua_blue()))],
{
    let mut t = String::new();
    string_push(&mut t, ' ');
    string_push(&mut t, '\u{e620}');
    string_push(&mut t, ' ');
    push_str(&mut t, data.version.as_str());
    assert(t@ =~= seq![' ', '\u{e620}', ' '] + data.version@);
    let mut segs: Vec<Segment> = Vec::new();
    assert(segs_view(segs@) =~= Seq::<(Seq<char>, Option<Color>)>::empty());
    push_segment(&mut segs, t, Color { r: 0x4e, g: 0x68, b: 0xb2 });
    assert(segs_view(segs@) =~= seq![(seq![' ', '\u{e620}', ' '] + data.version@, Some(lua_blue()))]);
    segs
}

} // verus!
