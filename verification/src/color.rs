//! Colors and colored text segments.
use vstd::prelude::*;
use vstd::utf8::*;

use crate::text::{decimal, push_decimal, push_str, string_push};

verus! {

/// A 24-bit terminal color.
#[derive(Clone, Copy, Debug, PartialEq, Eq, Structural)]
pub struct Color {
    pub r: u8,
    pub g: u8,
    pub b: u8,
}

/// The bytes that remain once every leading `#` is taken off.
pub open spec fn skip_hashes(b: Seq<u8>) -> Seq<u8>
    decreases b.len(),
{
    if b.len() > 0 && b[0] == 0x23u8 {
        skip_hashes(b.drop_first())
    } else {
        b
    }
}

/// The value of a hexadecimal digit, either case.
pub open spec fn hex_value(c: u8) -> Option<u8> {
    if 0x30u8 <= c && c <= 0x39u8 {
        Some((c - 0x30u8) as u8)
    } else if 0x61u8 <= c && c <= 0x66u8 {
        Some((c - 0x61u8 + 10) as u8)
    } else if 0x41u8 <= c && c <= 0x46u8 {
        Some((c - 0x41u8 + 10) as u8)
    } else {
        None
    }
}

/// `u8::from_str_radix(_, 16)` on a text of two bytes: two hex digits, or a
/// plus sign and one hex digit.
pub open spec fn hex_pair(a: u8, b: u8) -> Option<u8> {
    if a == 0x2bu8 {
        hex_value(b)
    } else {
        match (hex_value(a), hex_value(b)) {
            (Some(x), Some(y)) => Some((x * 16 + y) as u8),
            _ => None,
        }
    }
}

/// Slicing a text at byte `i` falls inside a character.
pub open spec fn cuts_char(b: Seq<u8>, i: int) -> bool {
    0 < i < b.len() && is_continuation_byte(b[i])
}

/// The inputs on which `from_hex` slices a string inside a character: the text
/// after the leading `#`s is six bytes long, and byte 2, or byte 4 once the
/// first pair has been read, falls inside a character.
pub open spec fn from_hex_panics(s: Seq<char>) -> bool {
    let h = skip_hashes(encode_utf8(s));
    &&& h.len() == 6
    &&& cuts_char(h, 2) || (hex_pair(h[0], h[1]) is Some && cuts_char(h, 4))
}

/// The color that a `#RRGGBB` text names: any number of leading `#`, then
/// exactly six bytes that form three pairs.
pub open spec fn color_from_hex(s: Seq<char>) -> Option<Color> {
    let h = skip_hashes(encode_utf8(s));
    if h.len() != 6 {
        None
    } else {
        match (hex_pair(h[0], h[1]), hex_pair(h[2], h[3]), hex_pair(h[4], h[5])) {
            (Some(r), Some(g), Some(b)) => Some(Color { r, g, b }),
            _ => None,
        }
    }
}

/// The escape sequence that switches the foreground to `c`:
/// `ESC [ 38 ; 2 ; r ; g ; b m`.
pub open spec fn ansi_fg(c: Color) -> Seq<char> {
    seq!['\x1b', '[', '3', '8', ';', '2', ';'] + decimal(c.r as nat) + seq![';'] + decimal(
        c.g as nat,
    ) + seq![';'] + decimal(c.b as nat) + seq!['m']
}

/// The escape sequence that resets all attributes: `ESC [ 0 m`.
pub open spec fn ansi_reset() -> Seq<char> {
    seq!['\x1b', '[', '0', 'm']
}

/// The upper-case hexadecimal digit for `d < 16`.
pub open spec fn upper_hex_digit(d: nat) -> char {
    if d < 10 {
        crate::text::digit_char(d)
    } else if d == 10 {
        'A'
    } else if d == 11 {
        'B'
    } else if d == 12 {
        'C'
    } else if d == 13 {
        'D'
    } else if d == 14 {
        'E'
    } else {
        'F'
    }
}

/// `{:02X}` of a byte.
pub open spec fn hex_byte_upper(x: u8) -> Seq<char> {
    seq![upper_hex_digit((x / 16) as nat), upper_hex_digit((x % 16) as nat)]
}

/// `#RRGGBB` with upper-case digits.
pub open spec fn hex_notation(c: Color) -> Seq<char> {
    seq!['#'] + hex_byte_upper(c.r) + hex_byte_upper(c.g) + hex_byte_upper(c.b)
}

fn hex_value_exec(c: u8) -> (r: Option<u8>)
    ensures
        r == hex_value(c),
{
    if 0x30u8 <= c && c <= 0x39u8 {
        Some(c - 0x30u8)
    } else if 0x61u8 <= c && c <= 0x66u8 {
        Some(c - 0x61u8 + 10)
    } else if 0x41u8 <= c && c <= 0x46u8 {
        Some(c - 0x41u8 + 10)
    } else {
        None
    }
}

fn hex_pair_exec(a: u8, b: u8) -> (r: Option<u8>)
    ensures
        r == hex_pair(a, b),
{
    if a == 0x2bu8 {
        hex_value_exec(b)
    } else {
        match (hex_value_exec(a), hex_value_exec(b)) {
            (Some(x), Some(y)) => Some(x * 16 + y),
            _ => None,
        }
    }
}

fn upper_hex_digit_exec(d: u8) -> (c: char)
    requires
        d < 16,
    ensures
        c == upper_hex_digit(d as nat),
{
    if d == 0 {
        '0'
    } else if d == 1 {
        '1'
    } else if d == 2 {
        '2'
    } else if d == 3 {
        '3'
    } else if d == 4 {
        '4'
    } else if d == 5 {
        '5'
    } else if d == 6 {
        '6'
    } else if d == 7 {
        '7'
    } else if d == 8 {
        '8'
    } else if d == 9 {
        '9'
    } else if d == 10 {
        'A'
    } else if d == 11 {
        'B'
    } else if d == 12 {
        'C'
    } else if d == 13 {
        'D'
    } else if d == 14 {
        'E'
    } else {
        'F'
    }
}

proof fn lemma_skip_hashes_step(b: Seq<u8>, k: int)
    requires
        0 <= k < b.len(),
        b[k] == 0x23u8,
    ensures
        skip_hashes(b.skip(k)) == skip_hashes(b.skip(k + 1)),
{
    assert(b.skip(k).drop_first() =~= b.skip(k + 1));
}

/// The escape sequence that resets all attributes.
pub const RESET: &'static str = "\x1b[0m";

/// Appends the escape sequence that resets all attributes.
pub fn push_reset(s: &mut String)
    ensures
        final(s)@ == old(s)@ + ansi_reset(),
{
    proof {
        reveal_strlit("\x1b[0m");
    }
    assert(RESET@ =~= ansi_reset());
    push_str(s, RESET);
}

impl Color {
    /// Parses `#RRGGBB` (any number of leading `#`, then six bytes of
    /// hexadecimal pairs).
    pub fn from_hex(hex: &str) -> (r: Option<Color>)
        requires
            !from_hex_panics(hex@),
        ensures
            r == color_from_hex(hex@),
    {
        let b = hex.as_bytes();
        let ghost bs = b@;
        let mut k: usize = 0;
        assert(bs.skip(0) =~= bs);
        while k < b.len() && b[k] == 0x23u8
            invariant
                bs == b@,
                bs == encode_utf8(hex@),
                k <= bs.len(),
                skip_hashes(bs) == skip_hashes(bs.skip(k as int)),
            decreases bs.len() - k,
        {
            proof {
                lemma_skip_hashes_step(bs, k as int);
            }
            k = k + 1;
        }
        let ghost h = bs.skip(k as int);
        assert(skip_hashes(h) == h);
        if b.len() - k != 6 {
            return None;
        }
        assert(h[0] == b[k as int] && h[1] == b[k + 1] && h[2] == b[k + 2]);
        assert(h[3] == b[k + 3] && h[4] == b[k + 4] && h[5] == b[k + 5]);
        let r = match hex_pair_exec(b[k], b[k + 1]) {
            Some(v) => v,
            None => return None,
        };
        let g = match hex_pair_exec(b[k + 2], b[k + 3]) {
            Some(v) => v,
            None => return None,
        };
        let bl = match hex_pair_exec(b[k + 4], b[k + 5]) {
            Some(v) => v,
            None => return None,
        };
        Some(Color { r, g, b: bl })
    }

    /// Tells whether `from_hex` would slice `hex` inside a character.
    pub fn from_hex_would_panic(hex: &str) -> (r: bool)
        ensures
            r == from_hex_panics(hex@),
    {
        let b = hex.as_bytes();
        let ghost bs = b@;
        let mut k: usize = 0;
        assert(bs.skip(0) =~= bs);
        while k < b.len() && b[k] == 0x23u8
            invariant
                bs == b@,
                bs == encode_utf8(hex@),
                k <= bs.len(),
                skip_hashes(bs) == skip_hashes(bs.skip(k as int)),
            decreases bs.len() - k,
        {
            proof {
                lemma_skip_hashes_step(bs, k as int);
            }
            k = k + 1;
        }
        let ghost h = bs.skip(k as int);
        assert(skip_hashes(h) == h);
        if b.len() - k != 6 {
            return false;
        }
        assert(h[0] == b[k as int] && h[1] == b[k + 1] && h[2] == b[k + 2]);
        assert(h[3] == b[k + 3] && h[4] == b[k + 4] && h[5] == b[k + 5]);
        let cut2 = 0x80u8 <= b[k + 2] && b[k + 2] <= 0xbfu8;
        let cut4 = 0x80u8 <= b[k + 4] && b[k + 4] <= 0xbfu8;
        cut2 || (hex_pair_exec(b[k], b[k + 1]).is_some() && cut4)
    }

    /// The escape sequence that switches the foreground to this color.
    pub fn to_ansi_fg(self) -> (s: String)
        ensures
            s@ == ansi_fg(self),
    {
        let mut s = String::new();
        string_push(&mut s, '\x1b');
        string_push(&mut s, '[');
        string_push(&mut s, '3');
        string_push(&mut s, '8');
        string_push(&mut s, ';');
        string_push(&mut s, '2');
        string_push(&mut s, ';');
        push_decimal(&mut s, self.r as u64);
        string_push(&mut s, ';');
        push_decimal(&mut s, self.g as u64);
        string_push(&mut s, ';');
        push_decimal(&mut s, self.b as u64);
        string_push(&mut s, 'm');
        assert(s@ =~= ansi_fg(self));
        s
    }

    /// `#RRGGBB` with upper-case digits, the form in which a color is handed
    /// to Lua.
    pub fn to_hex_string(self) -> (s: String)
        ensures
            s@ == hex_notation(self),
    {
        let mut s = String::new();
        string_push(&mut s, '#');
        string_push(&mut s, upper_hex_digit_exec(self.r / 16));
        string_push(&mut s, upper_hex_digit_exec(self.r % 16));
        string_push(&mut s, upper_hex_digit_exec(self.g / 16));
        string_push(&mut s, upper_hex_digit_exec(self.g % 16));
        string_push(&mut s, upper_hex_digit_exec(self.b / 16));
        string_push(&mut s, upper_hex_digit_exec(self.b % 16));
        assert(s@ =~= hex_notation(self));
        s
    }
}

/// A piece of prompt text with an optional foreground color.
#[derive(Clone, Debug)]
pub struct Segment {
    pub text: String,
    pub color: Option<Color>,
}

impl Segment {
    pub fn new(text: String, color: Color) -> (s: Segment)
        ensures
            s.text@ == text@,
            s.color == Some(color),
    {
        Segment { text, color: Some(color) }
    }
}

/// How one segment shows on the terminal: its text, wrapped in the color's
/// escape sequence and a reset when it has a color.
pub open spec fn segment_text(seg: Segment) -> Seq<char> {
    match seg.color {
        Some(c) => ansi_fg(c) + seg.text@ + ansi_reset(),
        None => seg.text@,
    }
}

/// The segments' texts one after another.
pub open spec fn rendered(segs: Seq<Segment>) -> Seq<char>
    decreases segs.len(),
{
    if segs.len() == 0 {
        Seq::empty()
    } else {
        rendered(segs.drop_last()) + segment_text(segs.last())
    }
}

/// Renders segments into one string with their color escape sequences.
pub fn render_segments(segments: &[Segment]) -> (out: String)
    ensures
        out@ == rendered(segments@),
{
    let mut out = String::new();
    let mut i: usize = 0;
    while i < segments.len()
        invariant
            i <= segments@.len(),
            out@ == rendered(segments@.subrange(0, i as int)),
        decreases segments@.len() - i,
    {
        let seg = &segments[i];
        let ghost before = out@;
        if let Some(color) = seg.color {
            let fg = color.to_ansi_fg();
            push_str(&mut out, fg.as_str());
        }
        push_str(&mut out, seg.text.as_str());
        if seg.color.is_some() {
            push_reset(&mut out);
        }
        assert(segments@.subrange(0, i + 1).drop_last() =~= segments@.subrange(0, i as int));
        assert(out@ =~= before + segment_text(segments@[i as int]));
        i = i + 1;
    }
    assert(segments@.subrange(0, segments@.len() as int) =~= segments@);
    out
}


proof fn lemma_upper_hex_digit(d: nat)
    requires
        d < 16,
    ensures
        '\0' <= upper_hex_digit(d) <= '\u{7f}',
        upper_hex_digit(d) as u8 != 0x23u8,
        upper_hex_digit(d) as u8 != 0x2bu8,
        hex_value(upper_hex_digit(d) as u8) == Some(d as u8),
{
    if d < 10 {
        assert(d == 0 || d == 1 || d == 2 || d == 3 || d == 4 || d == 5 || d == 6 || d == 7
            || d == 8 || d == 9);
    }
}

/// A color written in the `#RRGGBB` form in which it is handed to Lua is
/// read back as the same color, and reading it never slices inside a
/// character.
pub proof fn law_hex_notation_round_trip(c: Color)
    ensures
        !from_hex_panics(hex_notation(c)),
        color_from_hex(hex_notation(c)) == Some(c),
{
    let s = hex_notation(c);
    lemma_upper_hex_digit((c.r / 16) as nat);
    lemma_upper_hex_digit((c.r % 16) as nat);
    lemma_upper_hex_digit((c.g / 16) as nat);
    lemma_upper_hex_digit((c.g % 16) as nat);
    lemma_upper_hex_digit((c.b / 16) as nat);
    lemma_upper_hex_digit((c.b % 16) as nat);
    assert(s.len() == 7);
    assert(is_ascii_chars(s));
    is_ascii_chars_encode_utf8(s);
    let e = encode_utf8(s);
    assert(e[0] == 0x23u8);
    let h = e.drop_first();
    assert(skip_hashes(e) == skip_hashes(h));
    assert(h[0] == s[1] as u8);
    assert(skip_hashes(h) == h);
    assert(h.len() == 6);
    assert(h[1] == s[2] as u8 && h[2] == s[3] as u8 && h[3] == s[4] as u8);
    assert(h[4] == s[5] as u8 && h[5] == s[6] as u8);
    assert(!is_continuation_byte(h[2]) && !is_continuation_byte(h[4]));
    assert(hex_pair(h[0], h[1]) == Some(c.r));
    assert(hex_pair(h[2], h[3]) == Some(c.g));
    assert(hex_pair(h[4], h[5]) == Some(c.b));
}

/// Leading `#`s do not matter: one more in front reads as the same color, and
/// panics on the same texts.
pub proof fn law_leading_hash_ignored(s: Seq<char>)
    ensures
        color_from_hex(seq!['#'] + s) == color_from_hex(s),
        from_hex_panics(seq!['#'] + s) == from_hex_panics(s),
{
    let t = seq!['#'] + s;
    assert(t.drop_first() =~= s);
    assert(t[0] == '#');
    assert(encode_utf8(t) == encode_scalar('#' as u32) + encode_utf8(s));
    let one = seq!['#'];
    assert(is_ascii_chars(one));
    is_ascii_chars_encode_utf8(one);
    assert(one.drop_first() =~= Seq::<char>::empty());
    assert(encode_utf8(one) == encode_scalar('#' as u32) + encode_utf8(Seq::<char>::empty()));
    assert(encode_utf8(one) =~= encode_scalar('#' as u32));
    assert(encode_scalar('#' as u32) =~= seq![0x23u8]);
    assert((seq![0x23u8] + encode_utf8(s)).drop_first() =~= encode_utf8(s));
    assert(skip_hashes(encode_utf8(t)) == skip_hashes(encode_utf8(s)));
}


/// A segment seen as a value: its text and color.
pub open spec fn seg_view(s: Segment) -> (Seq<char>, Option<Color>) {
    (s.text@, s.color)
}

pub open spec fn segs_view(v: Seq<Segment>) -> Seq<(Seq<char>, Option<Color>)> {
    v.map_values(|s: Segment| seg_view(s))
}

/// Appends a colored segment.
pub fn push_segment(segs: &mut Vec<Segment>, text: String, color: Color)
    ensures
        segs_view(final(segs)@) == segs_view(old(segs)@).push((text@, Some(color))),
{
    let ghost before = segs@;
    segs.push(Segment::new(text, color));
    assert(segs_view(segs@) =~= segs_view(before).push((text@, Some(color))));
}

/// Rendering a concatenation renders the parts one after the other.
pub proof fn law_rendered_concat(a: Seq<Segment>, b: Seq<Segment>)
    ensures
        rendered(a + b) == rendered(a) + rendered(b),
    decreases b.len(),
{
    if b.len() == 0 {
        assert(a + b =~= a);
        assert(rendered(a) + rendered(b) =~= rendered(a));
    } else {
        assert((a + b).drop_last() =~= a + b.drop_last());
        law_rendered_concat(a, b.drop_last());
        assert(rendered(a + b) =~= rendered(a) + rendered(b));
    }
}


proof fn lemma_skip_hashes_suffix(b: Seq<u8>)
    ensures
        skip_hashes(b).len() <= b.len(),
        skip_hashes(b) == b.skip(b.len() - skip_hashes(b).len()),
    decreases b.len(),
{
    if b.len() > 0 && b[0] == 0x23u8 {
        lemma_skip_hashes_suffix(b.drop_first());
        let r = skip_hashes(b.drop_first());
        assert(b.drop_first().skip(b.drop_first().len() - r.len()) =~= b.skip(b.len() - r.len()));
    } else {
        assert(b.skip(0) =~= b);
    }
}

/// Reading a color from an ASCII text never slices inside a character.
pub proof fn law_ascii_never_panics(s: Seq<char>)
    requires
        is_ascii_chars(s),
    ensures
        !from_hex_panics(s),
{
    is_ascii_chars_encode_utf8(s);
    let e = encode_utf8(s);
    lemma_skip_hashes_suffix(e);
    let h = skip_hashes(e);
    let k = e.len() - h.len();
    assert forall|i: int| 0 <= i < h.len() implies !is_continuation_byte(#[trigger] h[i]) by {
        assert(h[i] == e[i + k]);
        assert(e[i + k] == s[i + k] as u8);
        assert(s[i + k] <= '\u{7f}');
    }
    if h.len() == 6 {
        assert(!is_continuation_byte(h[2]));
        assert(!is_continuation_byte(h[4]));
    }
}

/// The message when a text names no color.
pub open spec fn invalid_color_message(s: Seq<char>) -> Seq<char> {
    "invalid hex color: "@ + s
}

/// Reads a color handed over from Lua as a `#RRGGBB` text.
pub fn color_from_text(s: &str) -> (r: Result<Color, String>)
    requires
        !from_hex_panics(s@),
    ensures
        r matches Ok(c) ==> color_from_hex(s@) == Some(c),
        r matches Err(m) ==> color_from_hex(s@) is None && m@ == invalid_color_message(s@),
{
    match Color::from_hex(s) {
        Some(c) => Ok(c),
        None => {
            let mut m = "invalid hex color: ".to_string();
            push_str(&mut m, s);
            Err(m)
        },
    }
}

/// What a sequence holds after a push: what it held, and the pushed item.
pub proof fn lemma_push_contains<A>(s: Seq<A>, x: A, y: A)
    ensures
        s.push(x).contains(y) <==> (s.contains(y) || x == y),
{
    if s.contains(y) {
        let i = choose|i: int| 0 <= i < s.len() && s[i] == y;
        assert(s.push(x)[i] == y);
    }
    if x == y {
        assert(s.push(x)[s.len() as int] == y);
    }
    if s.push(x).contains(y) {
        let i = choose|i: int| 0 <= i < s.push(x).len() && s.push(x)[i] == y;
        if i < s.len() {
            assert(s[i] == y);
        }
    }
}

/// A property of every item survives a push of an item that has it.
pub proof fn lemma_push_all<A>(s: Seq<A>, x: A, p: spec_fn(A) -> bool)
    requires
        forall|i: int| 0 <= i < s.len() ==> p(#[trigger] s[i]),
        p(x),
    ensures
        forall|i: int| 0 <= i < s.push(x).len() ==> p(#[trigger] s.push(x)[i]),
{
    assert forall|i: int| 0 <= i < s.push(x).len() implies p(#[trigger] s.push(x)[i]) by {
        if i < s.len() {
            assert(s.push(x)[i] == s[i]);
        }
    }
}

} // verus!
