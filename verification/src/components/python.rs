//! The Python version component.
use vstd::prelude::*;

use crate::color::{push_segment, segs_view, Color, Segment};
use crate::text::{push_str, second_word, string_push, words};

verus! {

/// What the Python component shows.
pub struct PythonData {
    pub version: String,
}

/// The first version found: the second word of the first output (standard
/// output and error together) that has one; empty when none has.
pub open spec fn first_version(outputs: Seq<Option<String>>) -> Seq<char>
    decreases outputs.len(),
{
    if outputs.len() == 0 {
        Seq::empty()
    } else {
        match outputs[0] {
            Some(t) => if words(t@).len() >= 2 {
                words(t@)[1]
            } else {
                first_version(outputs.drop_first())
            },
            None => first_version(outputs.drop_first()),
        }
    }
}

/// The version from the outputs of `python --version`, `python3 --version`
/// and `python2 --version` in that order (`None` for one that could not be
/// run).
pub fn version_from_outputs(outputs: &[Option<String>]) -> (d: PythonData)
    ensures
        d.version@ == first_version(outputs@),
{
    let mut i: usize = 0;
    assert(outputs@.skip(0) =~= outputs@);
    while i < outputs.len()
        invariant
            i <= outputs@.len(),
            first_version(outputs@) == first_version(outputs@.skip(i as int)),
        decreases outputs@.len() - i,
    {
        assert(outputs@.skip(i as int).drop_first() =~= outputs@.skip(i + 1));
        assert(outputs@.skip(i as int)[0] == outputs@[i as int]);
        if let Some(t) = &outputs[i] {
            if let Some(w) = second_word(t.as_str()) {
                return PythonData { version: w };
            }
        }
        i = i + 1;
    }
    assert(outputs@.skip(i as int) =~= Seq::<Option<String>>::empty());
    PythonData { version: String::new() }
}

pub open spec fn python_blue() -> Color {
    Color { r: 0x37, g: 0x76, b: 0xab }
}

/// One blue segment: the Python icon and the version.
pub fn render(data: &PythonData) -> (segs: Vec<Segment>)
    ensures
        segs_view(segs@) == seq![(seq![' ', '\u{e606}', ' '] + data.version@, Some(python_blue()))],
{
    let mut t = String::new();
    string_push(&mut t, ' ');
    string_push(&mut t, '\u{e606}');
    string_push(&mut t, ' ');
    push_str(&mut t, data.version.as_str());
    assert(t@ =~= seq![' ', '\u{e606}', ' '] + data.version@);
    let mut segs: Vec<Segment> = Vec::new();
    assert(segs_view(segs@) =~= Seq::<(Seq<char>, Option<Color>)>::empty());
    push_segment(&mut segs, t, Color { r: 0x37, g: 0x76, b: 0xab });
    assert(segs_view(segs@) =~= seq![(seq![' ', '\u{e606}', ' '] + data.version@, Some(python_blue()))]);
    segs
}

} // verus!
