//! The Rust version component.
use vstd::prelude::*;

use crate::color::{push_segment, segs_view, Color, Segment};
use crate::text::{push_str, second_word, string_push, words};

verus! {

/// What the Rust component shows.
pub struct RustData {
    pub version: String,
}

/// The version from `rustc --version`: its second word, or nothing when the
/// compiler could not be run. The output must have a second word.
pub fn version_from_output(output: Option<&str>) -> (d: RustData)
    requires
        output matches Some(t) ==> words(t@).len() >= 2,
    ensures
        d.version@ == match output {
            Some(t) => words(t@)[1],
            None => Seq::empty(),
        },
{
    match output {
        Some(t) => match second_word(t) {
            Some(w) => RustData { version: w },
            None => RustData { version: String::new() },
        },
        None => RustData { version: String::new() },
    }
}

pub open spec fn rust_red() -> Color {
    Color { r: 0xce, g: 0x41, b: 0x2b }
}

/// One segment: the Rust icon and the version.
pub fn render(data: &RustData) -> (segs: Vec<Segment>)
    ensures
        segs_view(segs@) == seq![(seq![' ', '\u{e7a8}', ' '] + data.version@, Some(rust_red()))],
{
    let mut t = String::new();
    string_push(&mut t, ' ');
    string_push(&mut t, '\u{e7a8}');
    string_push(&mut t, ' ');
    push_str(&mut t, data.version.as_str());
    assert(t@ =~= seq![' ', '\u{e7a8}', ' '] + data.version@);
    let mut segs: Vec<Segment> = Vec::new();
    assert(segs_view(segs@) =~= Seq::<(Seq<char>, Option<Color>)>::empty());
    push_segment(&mut segs, t, Color { r: 0xce, g: 0x41, b: 0x2b });
    assert(segs_view(segs@) =~= seq![(seq![' ', '\u{e7a8}', ' '] + data.version@, Some(rust_red()))]);
    segs
}

} // verus!
