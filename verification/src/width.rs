//! Display width of prompt text: terminal escape sequences and control
//! characters take no columns, every other character takes the columns
//! that the Unicode width tables give it.
use unicode_width::UnicodeWidthChar;
use vstd::prelude::*;

use crate::color::{ansi_fg, ansi_reset, rendered, segment_text, Color, Segment};
use crate::text::{chars_of, decimal};

verus! {

/// The column count that the Unicode width tables assign to a character at or
/// above U+00A0.
pub uninterp spec fn table_width(c: char) -> usize;

/// `UnicodeWidthChar::width` of the `unicode-width` crate: `None` for the C0
/// and C1 control characters, 1 for printable ASCII, and otherwise the value of
/// its lookup table, which is at most 3 in the version brought here (its last
/// special case, U+17D8, is 3 and every packed entry is below 3).
#[verifier::external_body]
fn unicode_char_width(c: char) -> (r: Option<usize>)
    ensures
        r == (if c < ' ' || ('\x7f' <= c && c < '\u{a0}') {
            None
        } else if '\x7f' > c {
            Some(1usize)
        } else {
            Some(table_width(c))
        }),
        r matches Some(w) ==> w <= 3,
{
    UnicodeWidthChar::width(c)
}

/// What `unicode_char_width` returns.
pub open spec fn char_width(c: char) -> Option<usize> {
    if c < ' ' || ('\x7f' <= c && c < '\u{a0}') {
        None
    } else if '\x7f' > c {
        Some(1usize)
    } else {
        Some(table_width(c))
    }
}

/// `char::is_control`: the general category Cc, that is U+0000 to U+001F and
/// U+007F to U+009F.
pub open spec fn is_control(c: char) -> bool {
    c <= '\x1f' || ('\x7f' <= c && c <= '\u{9f}')
}

pub fn char_is_control(c: char) -> (r: bool)
    ensures
        r == is_control(c),
{
    c <= '\x1f' || ('\x7f' <= c && c <= '\u{9f}')
}

/// Index just past a control sequence introducer's body that starts at `i`:
/// the first character in `@`..=`~` ends it, or the end of the text.
pub open spec fn csi_end(s: Seq<char>, i: int) -> int
    decreases s.len() - i,
{
    if i >= s.len() {
        s.len() as int
    } else if '\x40' <= s[i] && s[i] <= '\x7e' {
        i + 1
    } else {
        csi_end(s, i + 1)
    }
}

/// Index just past an operating system command's body that starts at `i`: BEL
/// ends it, so does ESC (taking a following backslash along), or the end of the text.
pub open spec fn osc_end(s: Seq<char>, i: int) -> int
    decreases s.len() - i,
{
    if i >= s.len() {
        s.len() as int
    } else if s[i] == '\x07' {
        i + 1
    } else if s[i] == '\x1b' {
        if i + 1 < s.len() && s[i + 1] == '\\' {
            i + 2
        } else {
            i + 1
        }
    } else {
        osc_end(s, i + 1)
    }
}

/// Index just past an escape sequence whose ESC stands just before index `i`.
pub open spec fn escape_end(s: Seq<char>, i: int) -> int {
    if i >= s.len() {
        i
    } else if s[i] == '[' {
        csi_end(s, i + 1)
    } else if s[i] == ']' {
        osc_end(s, i + 1)
    } else {
        i + 1
    }
}

pub proof fn lemma_csi_end_bounds(s: Seq<char>, i: int)
    requires
        0 <= i <= s.len(),
    ensures
        i <= csi_end(s, i) <= s.len(),
        i < s.len() ==> i < csi_end(s, i),
    decreases s.len() - i,
{
    if i < s.len() && !('\x40' <= s[i] && s[i] <= '\x7e') {
        lemma_csi_end_bounds(s, i + 1);
    }
}

pub proof fn lemma_osc_end_bounds(s: Seq<char>, i: int)
    requires
        0 <= i <= s.len(),
    ensures
        i <= osc_end(s, i) <= s.len(),
        i < s.len() ==> i < osc_end(s, i),
    decreases s.len() - i,
{
    if i < s.len() && s[i] != '\x07' && s[i] != '\x1b' {
        lemma_osc_end_bounds(s, i + 1);
    }
}

pub proof fn lemma_escape_end_bounds(s: Seq<char>, i: int)
    requires
        0 <= i <= s.len(),
    ensures
        i <= escape_end(s, i) <= s.len(),
{
    if i < s.len() {
        lemma_csi_end_bounds(s, i + 1);
        lemma_osc_end_bounds(s, i + 1);
    }

}

/// Display width of `s` from index `i` on.
pub open spec fn width_from(s: Seq<char>, i: int) -> nat
    decreases s.len() - i,
{
    if i < 0 || i >= s.len() {
        0
    } else if s[i] == '\x1b' {
        proof {
            lemma_escape_end_bounds(s, i + 1);
        }
        width_from(s, escape_end(s, i + 1))
    } else if is_control(s[i]) {
        width_from(s, i + 1)
    } else {
        let w: nat = match char_width(s[i]) {
            Some(w) => w as nat,
            None => 0,
        };
        w + width_from(s, i + 1)
    }
}

/// The display width of a text.
pub open spec fn text_width(s: Seq<char>) -> nat {
    width_from(s, 0)
}

fn csi_end_exec(v: &Vec<char>, i: usize) -> (j: usize)
    requires
        i <= v@.len(),
    ensures
        j == csi_end(v@, i as int),
{
    let mut k = i;
    while k < v.len()
        invariant
            i <= k <= v@.len(),
            csi_end(v@, i as int) == csi_end(v@, k as int),
        decreases v@.len() - k,
    {
        let c = v[k];
        if '\x40' <= c && c <= '\x7e' {
            return k + 1;
        }
        k = k + 1;
    }
    k
}

fn osc_end_exec(v: &Vec<char>, i: usize) -> (j: usize)
    requires
        i <= v@.len(),
    ensures
        j == osc_end(v@, i as int),
{
    let mut k = i;
    while k < v.len()
        invariant
            i <= k <= v@.len(),
            osc_end(v@, i as int) == osc_end(v@, k as int),
        decreases v@.len() - k,
    {
        let c = v[k];
        if c == '\x07' {
            return k + 1;
        }
        if c == '\x1b' {
            if k + 1 < v.len() && v[k + 1] == '\\' {
                return k + 2;
            }
            return k + 1;
        }
        k = k + 1;
    }
    k
}

/// Skips the escape sequence whose ESC stands just before index `i`.
pub fn skip_escape_sequence(v: &Vec<char>, i: usize) -> (j: usize)
    requires
        i <= v@.len(),
    ensures
        j == escape_end(v@, i as int),
        i <= j <= v@.len(),
{
    proof {
        lemma_escape_end_bounds(v@, i as int);
    }
    if i >= v.len() {
        i
    } else if v[i] == '[' {
        csi_end_exec(v, i + 1)
    } else if v[i] == ']' {
        osc_end_exec(v, i + 1)
    } else {
        i + 1
    }
}

/// The number of terminal columns that `s` takes: escape sequences and control
/// characters take none.
pub fn display_width(s: &str) -> (w: usize)
    requires
        s@.len() <= usize::MAX / 3,
    ensures
        w == text_width(s@),
{
    let v = chars_of(s);
    let mut width: usize = 0;
    let mut i: usize = 0;
    while i < v.len()
        invariant
            v@ == s@,
            i <= v@.len(),
            width + width_from(v@, i as int) == width_from(v@, 0),
            width <= 3 * i,
            v@.len() <= usize::MAX / 3,
        decreases v@.len() - i,
    {
        let c = v[i];
        if c == '\x1b' {
            proof {
                lemma_escape_end_bounds(v@, i + 1);
            }
            i = skip_escape_sequence(&v, i + 1);
        } else if char_is_control(c) {
            i = i + 1;
        } else {
            let cw = match unicode_char_width(c) {
                Some(w) => w,
                None => 0,
            };
            width = width + cw;
            i = i + 1;
        }
    }
    width
}


proof fn lemma_csi_end_shift(p: Seq<char>, t: Seq<char>, j: int)
    requires
        0 <= j <= t.len(),
    ensures
        csi_end(p + t, p.len() + j) == p.len() + csi_end(t, j),
    decreases t.len() - j,
{
    let s = p + t;
    if j < t.len() {
        assert(s[p.len() + j] == t[j]);
        if !('\x40' <= t[j] && t[j] <= '\x7e') {
            lemma_csi_end_shift(p, t, j + 1);
        }
    }
}

proof fn lemma_osc_end_shift(p: Seq<char>, t: Seq<char>, j: int)
    requires
        0 <= j <= t.len(),
    ensures
        osc_end(p + t, p.len() + j) == p.len() + osc_end(t, j),
    decreases t.len() - j,
{
    let s = p + t;
    if j < t.len() {
        assert(s[p.len() + j] == t[j]);
        if j + 1 < t.len() {
            assert(s[p.len() + j + 1] == t[j + 1]);
        }
        if t[j] != '\x07' && t[j] != '\x1b' {
            lemma_osc_end_shift(p, t, j + 1);
        }
    }
}

/// Widths measured inside the second part of a concatenation are those of the
/// second part alone.
proof fn lemma_width_from_shift(p: Seq<char>, t: Seq<char>, j: int)
    requires
        0 <= j <= t.len(),
    ensures
        width_from(p + t, p.len() + j) == width_from(t, j),
    decreases t.len() - j,
{
    let s = p + t;
    if j < t.len() {
        assert(s[p.len() + j] == t[j]);
        if t[j] == '\x1b' {
            lemma_escape_end_bounds(t, j + 1);
            if j + 1 < t.len() {
                assert(s[p.len() + j + 1] == t[j + 1]);
                lemma_csi_end_shift(p, t, j + 2);
                lemma_osc_end_shift(p, t, j + 2);
            }
            assert(escape_end(s, p.len() + j + 1) == p.len() + escape_end(t, j + 1));
            lemma_width_from_shift(p, t, escape_end(t, j + 1));
        } else {
            lemma_width_from_shift(p, t, j + 1);
        }
    }
}

/// A text without ESC measures the same at the front of a longer text.
proof fn lemma_width_from_plain_prefix(p: Seq<char>, t: Seq<char>, i: int)
    requires
        0 <= i <= p.len(),
        !p.contains('\x1b'),
    ensures
        width_from(p + t, i) == width_from(p, i) + width_from(t, 0),
    decreases p.len() - i,
{
    let s = p + t;
    if i == p.len() {
        lemma_width_from_shift(p, t, 0);
    } else {
        assert(s[i] == p[i]);
        assert(p[i] != '\x1b') by {
            if p[i] == '\x1b' {
                assert(p.contains('\x1b'));
            }
        }
        lemma_width_from_plain_prefix(p, t, i + 1);
    }
}

/// The width of a concatenation whose first part holds no ESC is the sum of
/// the widths.
pub proof fn lemma_width_concat_plain(p: Seq<char>, t: Seq<char>)
    requires
        !p.contains('\x1b'),
    ensures
        text_width(p + t) == text_width(p) + text_width(t),
{
    lemma_width_from_plain_prefix(p, t, 0);
}

/// A control sequence whose parameters stay below `@` ends at its first
/// final character.
proof fn lemma_csi_end_params(s: Seq<char>, i: int, k: int)
    requires
        0 <= i <= k < s.len(),
        forall|j: int| i <= j < k ==> s[j] < '\x40',
        '\x40' <= s[k] <= '\x7e',
    ensures
        csi_end(s, i) == k + 1,
    decreases k - i,
{
    if i < k {
        lemma_csi_end_params(s, i + 1, k);
    }
}

proof fn lemma_decimal_digits(n: nat)
    ensures
        forall|j: int| 0 <= j < decimal(n).len() ==> '0' <= #[trigger] decimal(n)[j] <= '9',
        decimal(n).len() >= 1,
    decreases n,
{
    if n >= 10 {
        lemma_decimal_digits(n / 10);
        let d = n % 10;
        assert(d == 0 || d == 1 || d == 2 || d == 3 || d == 4 || d == 5 || d == 6 || d == 7
            || d == 8 || d == 9);
    } else {
        assert(n == 0 || n == 1 || n == 2 || n == 3 || n == 4 || n == 5 || n == 6 || n == 7
            || n == 8 || n == 9);
    }
}

/// An escape sequence `ESC [ params final` in front of a text adds no width.
proof fn lemma_csi_prefix_no_width(e: Seq<char>, t: Seq<char>)
    requires
        e.len() >= 3,
        e[0] == '\x1b',
        e[1] == '[',
        forall|j: int| 2 <= j < e.len() - 1 ==> e[j] < '\x40',
        '\x40' <= e[e.len() - 1] <= '\x7e',
    ensures
        text_width(e + t) == text_width(t),
{
    let s = e + t;
    assert(s[0] == '\x1b' && s[1] == '[');
    assert(s[e.len() - 1] == e[e.len() - 1]);
    assert forall|j: int| 2 <= j < e.len() - 1 implies s[j] < '\x40' by {
        assert(s[j] == e[j]);
    }
    lemma_csi_end_params(s, 2, e.len() - 1);
    assert(escape_end(s, 1) == e.len());
    lemma_width_from_shift(e, t, 0);
}

/// Switching the foreground color in front of a text adds no width.
pub proof fn lemma_ansi_fg_no_width(c: Color, t: Seq<char>)
    ensures
        text_width(ansi_fg(c) + t) == text_width(t),
{
    let e = ansi_fg(c);
    lemma_decimal_digits(c.r as nat);
    lemma_decimal_digits(c.g as nat);
    lemma_decimal_digits(c.b as nat);
    let dr = decimal(c.r as nat);
    let dg = decimal(c.g as nat);
    let db = decimal(c.b as nat);
    assert forall|j: int| 2 <= j < e.len() - 1 implies e[j] < '\x40' by {
        if j < 7 {
        } else if j < 7 + dr.len() {
            assert(e[j] == dr[j - 7]);
        } else if j == 7 + dr.len() {
        } else if j < 8 + dr.len() + dg.len() {
            assert(e[j] == dg[j - 8 - dr.len()]);
        } else if j == 8 + dr.len() + dg.len() {
        } else {
            assert(e[j] == db[j - 9 - dr.len() - dg.len()]);
        }
    }
    lemma_csi_prefix_no_width(e, t);
}

/// The reset sequence adds no width.
pub proof fn lemma_reset_no_width(t: Seq<char>)
    ensures
        text_width(ansi_reset() + t) == text_width(t),
{
    lemma_csi_prefix_no_width(ansi_reset(), t);
}

/// A segment takes as many columns as its text: the color escape sequences
/// around it take none. This needs the text to hold no ESC, which could swallow
/// the reset sequence's own ESC.
pub proof fn law_segment_width(seg: Segment, rest: Seq<char>)
    requires
        !seg.text@.contains('\x1b'),
    ensures
        text_width(segment_text(seg) + rest) == text_width(seg.text@) + text_width(rest),
{
    match seg.color {
        Some(c) => {
            let e = ansi_fg(c);
            let t = seg.text@;
            assert(segment_text(seg) + rest =~= e + (t + (ansi_reset() + rest)));
            lemma_ansi_fg_no_width(c, t + (ansi_reset() + rest));
            lemma_width_concat_plain(t, ansi_reset() + rest);
            lemma_reset_no_width(rest);
        },
        None => {
            lemma_width_concat_plain(seg.text@, rest);
        },
    }
}

/// The widths of the segments' texts added up.
pub open spec fn texts_width(segs: Seq<Segment>) -> nat
    decreases segs.len(),
{
    if segs.len() == 0 {
        0
    } else {
        texts_width(segs.drop_last()) + text_width(segs.last().text@)
    }
}

proof fn lemma_rendered_width_rest(segs: Seq<Segment>, rest: Seq<char>)
    requires
        forall|i: int| 0 <= i < segs.len() ==> !(#[trigger] segs[i]).text@.contains('\x1b'),
    ensures
        text_width(rendered(segs) + rest) == texts_width(segs) + text_width(rest),
    decreases segs.len(),
{
    if segs.len() > 0 {
        let init = segs.drop_last();
        let last = segs.last();
        assert(rendered(segs) + rest =~= rendered(init) + (segment_text(last) + rest));
        assert forall|i: int| 0 <= i < init.len() implies !(#[trigger] init[i]).text@.contains(
            '\x1b',
        ) by {
            assert(init[i] == segs[i]);
        }
        lemma_rendered_width_rest(init, segment_text(last) + rest);
        law_segment_width(last, rest);
    } else {
        assert(rendered(segs) + rest =~= rest);
    }
}

/// Rendered segments take as many columns as their texts together: coloring
/// adds no width, as long as no text holds an ESC.
pub proof fn law_rendered_width(segs: Seq<Segment>)
    requires
        forall|i: int| 0 <= i < segs.len() ==> !(#[trigger] segs[i]).text@.contains('\x1b'),
    ensures
        text_width(rendered(segs)) == texts_width(segs),
{
    lemma_rendered_width_rest(segs, Seq::empty());
    assert(rendered(segs) + Seq::<char>::empty() =~= rendered(segs));
}


/// Printable ASCII (space to tilde) takes one column per character.
pub proof fn law_printable_ascii_width(s: Seq<char>)
    requires
        forall|i: int| 0 <= i < s.len() ==> ' ' <= #[trigger] s[i] && s[i] <= '~',
    ensures
        text_width(s) == s.len(),
{
    lemma_printable_from(s, 0);
}

proof fn lemma_printable_from(s: Seq<char>, i: int)
    requires
        0 <= i <= s.len(),
        forall|j: int| 0 <= j < s.len() ==> ' ' <= #[trigger] s[j] && s[j] <= '~',
    ensures
        width_from(s, i) == s.len() - i,
    decreases s.len() - i,
{
    if i < s.len() {
        lemma_printable_from(s, i + 1);
        assert(' ' <= s[i] && s[i] <= '~');
    }
}

} // verus!
