//! Laying out rendered component output into prompt lines: newlines start
//! a new line, and chunks after the align marker go to the right edge.
use vstd::prelude::*;

use crate::color::{rendered, render_segments, Segment};
use crate::text::{push_str, split_char, string_from_chars, string_push};
use crate::width::{display_width, text_width};

verus! {

/// A piece of rendered text split at newlines: a text without newline, or a
/// line break.
pub enum NewlinePart {
    Text(String),
    Newline,
}

/// A part seen as a value: `Some(text)` or `None` for a line break.
pub open spec fn part_view(p: NewlinePart) -> Option<Seq<char>> {
    match p {
        NewlinePart::Text(t) => Some(t@),
        NewlinePart::Newline => None,
    }
}

/// The text part for a piece, left out when the piece is empty.
pub open spec fn text_part(piece: Seq<char>) -> Seq<Option<Seq<char>>> {
    if piece.len() == 0 {
        Seq::empty()
    } else {
        seq![Some(piece)]
    }
}

/// The parts of pieces that each end in a line break.
pub open spec fn closed_parts(pieces: Seq<Seq<char>>) -> Seq<Option<Seq<char>>>
    decreases pieces.len(),
{
    if pieces.len() == 0 {
        Seq::empty()
    } else {
        closed_parts(pieces.drop_last()) + text_part(pieces.last()) + seq![None]
    }
}

/// The non-empty pieces of `s` between newlines, with a line break between
/// every two pieces.
pub open spec fn newline_parts(s: Seq<char>) -> Seq<Option<Seq<char>>> {
    let pieces = split_char(s, '\n');
    closed_parts(pieces.drop_last()) + text_part(pieces.last())
}

/// Splits a text at its newlines.
pub fn split_on_newlines(s: &str) -> (out: Vec<NewlinePart>)
    ensures
        out@.map_values(|p: NewlinePart| part_view(p)) == newline_parts(s@),
{
    let v = crate::text::chars_of(s);
    let mut out: Vec<NewlinePart> = Vec::new();
    let mut cur: Vec<char> = Vec::new();
    let mut i: usize = 0;
    proof {
        crate::text::lemma_split_char_len(v@.subrange(0, 0), '\n');
        assert(v@.subrange(0, 0) =~= Seq::<char>::empty());
        assert(split_char(Seq::<char>::empty(), '\n').drop_last() =~= Seq::<Seq<char>>::empty());
        assert(out@.map_values(|p: NewlinePart| part_view(p)) =~= Seq::<Option<Seq<char>>>::empty());
    }
    while i < v.len()
        invariant
            v@ == s@,
            i <= v@.len(),
            split_char(v@.subrange(0, i as int), '\n').len() >= 1,
            out@.map_values(|p: NewlinePart| part_view(p)) == closed_parts(
                split_char(v@.subrange(0, i as int), '\n').drop_last(),
            ),
            cur@ == split_char(v@.subrange(0, i as int), '\n').last(),
        decreases v@.len() - i,
    {
        let ghost pre = v@.subrange(0, i as int);
        let ghost next = v@.subrange(0, i + 1);
        assert(next.drop_last() =~= pre);
        assert(next.last() == v@[i as int]);
        let c = v[i];
        let ghost old_out = out@;
        if c == '\n' {
            let ghost pieces = split_char(pre, '\n');
            if cur.len() > 0 {
                out.push(NewlinePart::Text(string_from_chars(cur.as_slice())));
            }
            out.push(NewlinePart::Newline);
            assert(split_char(next, '\n') == pieces.push(Seq::<char>::empty()));
            assert(split_char(next, '\n').drop_last() =~= pieces);
            assert(pieces.drop_last().push(pieces.last()) =~= pieces);
            assert(closed_parts(pieces) == closed_parts(pieces.drop_last()) + text_part(
                pieces.last(),
            ) + seq![None]);
            assert(out@.map_values(|p: NewlinePart| part_view(p)) =~= old_out.map_values(
                |p: NewlinePart| part_view(p),
            ) + text_part(pieces.last()) + seq![None]);
            cur = Vec::new();
        } else {
            cur.push(c);
            let ghost pieces = split_char(pre, '\n');
            assert(split_char(next, '\n') == pieces.update(pieces.len() - 1, pieces.last().push(c)));
            assert(split_char(next, '\n').drop_last() =~= pieces.drop_last());
        }
        i = i + 1;
    }
    assert(v@.subrange(0, v@.len() as int) =~= s@);
    let ghost old_out = out@;
    if cur.len() > 0 {
        out.push(NewlinePart::Text(string_from_chars(cur.as_slice())));
        assert(out@.map_values(|p: NewlinePart| part_view(p)) =~= old_out.map_values(
            |p: NewlinePart| part_view(p),
        ) + text_part(cur@));
    } else {
        assert(out@.map_values(|p: NewlinePart| part_view(p)) =~= old_out.map_values(
            |p: NewlinePart| part_view(p),
        ) + text_part(cur@));
    }
    out
}


/// The parts put together again, a line break giving a newline.
pub open spec fn join_parts(parts: Seq<Option<Seq<char>>>) -> Seq<char>
    decreases parts.len(),
{
    if parts.len() == 0 {
        Seq::empty()
    } else {
        join_parts(parts.drop_last()) + match parts.last() {
            Some(t) => t,
            None => seq!['\n'],
        }
    }
}

proof fn lemma_join_parts_single(x: Option<Seq<char>>)
    ensures
        join_parts(seq![x]) == match x {
            Some(t) => t,
            None => seq!['\n'],
        },
{
    assert(seq![x].drop_last() =~= Seq::<Option<Seq<char>>>::empty());
    assert(seq![x].last() == x);
    assert(join_parts(Seq::<Option<Seq<char>>>::empty()) =~= Seq::<char>::empty());
    assert(join_parts(seq![x]) == join_parts(Seq::<Option<Seq<char>>>::empty()) + match x {
        Some(t) => t,
        None => seq!['\n'],
    });
    assert(join_parts(seq![x]) =~= match x {
        Some(t) => t,
        None => seq!['\n'],
    });
}

proof fn lemma_join_text_part(p: Seq<char>)
    ensures
        join_parts(text_part(p)) == p,
{
    if p.len() > 0 {
        lemma_join_parts_single(Some(p));
    } else {
        assert(p =~= Seq::<char>::empty());
    }
}

proof fn lemma_join_parts_concat(a: Seq<Option<Seq<char>>>, b: Seq<Option<Seq<char>>>)
    ensures
        join_parts(a + b) == join_parts(a) + join_parts(b),
    decreases b.len(),
{
    if b.len() == 0 {
        assert(a + b =~= a);
        assert(join_parts(a) + join_parts(b) =~= join_parts(a));
    } else {
        assert((a + b).drop_last() =~= a + b.drop_last());
        lemma_join_parts_concat(a, b.drop_last());
        assert(join_parts(a + b) =~= join_parts(a) + join_parts(b));
    }
}

proof fn lemma_join_closed_parts(q: Seq<Seq<char>>)
    ensures
        q.len() > 0 ==> join_parts(closed_parts(q)) == crate::text::join_with(q, seq!['\n']) + seq!['\n'],
        q.len() == 0 ==> join_parts(closed_parts(q)) == Seq::<char>::empty(),
    decreases q.len(),
{
    if q.len() > 0 {
        let init = q.drop_last();
        lemma_join_closed_parts(init);
        let tp = text_part(q.last());
        lemma_join_parts_concat(closed_parts(init), tp);
        lemma_join_parts_concat(closed_parts(init) + tp, seq![None]);
        lemma_join_parts_single(None);
        lemma_join_text_part(q.last());
        if init.len() == 0 {
            assert(join_parts(closed_parts(q)) =~= crate::text::join_with(q, seq!['\n']) + seq!['\n']);
        } else {
            assert(join_parts(closed_parts(q)) =~= crate::text::join_with(q, seq!['\n']) + seq!['\n']);
        }
    }
}

/// Putting the parts of a text split at newlines together again gives the
/// text back.
pub proof fn law_newline_parts_join(s: Seq<char>)
    ensures
        join_parts(newline_parts(s)) == s,
{
    let pieces = split_char(s, '\n');
    crate::text::lemma_split_char_len(s, '\n');
    crate::text::law_split_join(s, '\n');
    let q = pieces.drop_last();
    let tp = text_part(pieces.last());
    lemma_join_parts_concat(closed_parts(q), tp);
    lemma_join_closed_parts(q);
    lemma_join_text_part(pieces.last());
    if q.len() == 0 {
        assert(pieces =~= seq![pieces.last()]);
        assert(join_parts(newline_parts(s)) =~= s);
    } else {
        assert(pieces.drop_last() == q);
        assert(join_parts(newline_parts(s)) =~= s);
    }
}


/// A rendered piece of one prompt line: its text, its display width, and
/// whether it goes to the right edge.
pub struct RenderedChunk {
    pub text: String,
    pub width: usize,
    pub align_right: bool,
}

/// A chunk seen as a value: (text, width, right-aligned).
pub type ChunkView = (Seq<char>, nat, bool);

pub open spec fn chunk_view(c: RenderedChunk) -> ChunkView {
    (c.text@, c.width as nat, c.align_right)
}

pub open spec fn chunks_view(cs: Seq<RenderedChunk>) -> Seq<ChunkView> {
    cs.map_values(|c: RenderedChunk| chunk_view(c))
}

/// The texts of the chunks on one side, in order.
pub open spec fn side_text(cs: Seq<ChunkView>, right: bool) -> Seq<char>
    decreases cs.len(),
{
    if cs.len() == 0 {
        Seq::empty()
    } else {
        side_text(cs.drop_last(), right) + if cs.last().2 == right {
            cs.last().0
        } else {
            Seq::empty()
        }
    }
}

/// The widths of the chunks on one side, added up.
pub open spec fn side_width(cs: Seq<ChunkView>, right: bool) -> nat
    decreases cs.len(),
{
    if cs.len() == 0 {
        0
    } else {
        side_width(cs.drop_last(), right) + if cs.last().2 == right {
            cs.last().1
        } else {
            0
        }
    }
}

pub open spec fn has_right(cs: Seq<ChunkView>) -> bool {
    exists|i: int| 0 <= i < cs.len() && (#[trigger] cs[i]).2
}

/// `n` spaces.
pub open spec fn spaces(n: nat) -> Seq<char> {
    Seq::new(n, |i: int| ' ')
}

/// The columns left between the two sides: what the terminal width leaves
/// over, at least one.
pub open spec fn padding(cs: Seq<ChunkView>, term_width: nat) -> nat {
    let used = side_width(cs, false) + side_width(cs, true);
    if term_width > used + 1 {
        (term_width - used) as nat
    } else {
        1
    }
}

/// One prompt line: the left chunks, and when there are right-aligned
/// chunks, padding and then the right chunks.
pub open spec fn line_text(cs: Seq<ChunkView>, term_width: nat) -> Seq<char> {
    if !has_right(cs) {
        side_text(cs, false)
    } else {
        side_text(cs, false) + spaces(padding(cs, term_width)) + side_text(cs, true)
    }
}

/// The widths fit in a machine word where the line needs them.
pub open spec fn line_fits(cs: Seq<ChunkView>) -> bool {
    has_right(cs) ==> side_width(cs, false) + side_width(cs, true) <= usize::MAX
}

proof fn lemma_side_width_mono(cs: Seq<ChunkView>, i: int, right: bool)
    requires
        0 <= i <= cs.len(),
    ensures
        side_width(cs.subrange(0, i), right) <= side_width(cs, right),
    decreases cs.len() - i,
{
    if i < cs.len() {
        lemma_side_width_mono(cs, i + 1, right);
        assert(cs.subrange(0, i + 1).drop_last() =~= cs.subrange(0, i));
    } else {
        assert(cs.subrange(0, i) =~= cs);
    }
}

/// Lays out one line.
pub fn render_line(chunks: &[RenderedChunk], term_width: usize) -> (out: String)
    requires
        line_fits(chunks_view(chunks@)),
    ensures
        out@ == line_text(chunks_view(chunks@), term_width as nat),
{
    let ghost cv = chunks_view(chunks@);
    let mut left = String::new();
    let mut right = String::new();
    let mut any_right = false;
    let mut i: usize = 0;
    while i < chunks.len()
        invariant
            cv == chunks_view(chunks@),
            i <= chunks@.len(),
            left@ == side_text(cv.subrange(0, i as int), false),
            right@ == side_text(cv.subrange(0, i as int), true),
            any_right == exists|j: int| 0 <= j < i && (#[trigger] cv[j]).2,
        decreases chunks@.len() - i,
    {
        let c = &chunks[i];
        assert(cv.subrange(0, i + 1).drop_last() =~= cv.subrange(0, i as int));
        assert(cv[i as int] == chunk_view(chunks@[i as int]));
        if c.align_right {
            push_str(&mut right, c.text.as_str());
            any_right = true;
        } else {
            push_str(&mut left, c.text.as_str());
        }
        i = i + 1;
    }
    assert(cv.subrange(0, cv.len() as int) =~= cv);
    if !any_right {
        return left;
    }
    let mut lw: usize = 0;
    let mut rw: usize = 0;
    let mut k: usize = 0;
    while k < chunks.len()
        invariant
            cv == chunks_view(chunks@),
            k <= chunks@.len(),
            has_right(cv),
            side_width(cv, false) + side_width(cv, true) <= usize::MAX,
            lw == side_width(cv.subrange(0, k as int), false),
            rw == side_width(cv.subrange(0, k as int), true),
        decreases chunks@.len() - k,
    {
        let c = &chunks[k];
        assert(cv.subrange(0, k + 1).drop_last() =~= cv.subrange(0, k as int));
        assert(cv[k as int] == chunk_view(chunks@[k as int]));
        proof {
            lemma_side_width_mono(cv, k + 1, false);
            lemma_side_width_mono(cv, k + 1, true);
        }
        if c.align_right {
            rw = rw + c.width;
        } else {
            lw = lw + c.width;
        }
        k = k + 1;
    }
    assert(cv.subrange(0, cv.len() as int) =~= cv);
    let used = lw + rw;
    let pad: usize = if term_width > used && term_width - used > 1 {
        term_width - used
    } else {
        1
    };
    let mut out = left;
    let mut p: usize = 0;
    let ghost base = out@;
    while p < pad
        invariant
            p <= pad,
            out@ == base + spaces(p as nat),
        decreases pad - p,
    {
        string_push(&mut out, ' ');
        assert(spaces((p + 1) as nat) =~= spaces(p as nat).push(' '));
        p = p + 1;
    }
    push_str(&mut out, right.as_str());
    out
}


/// What laying out has built so far: the lines, and whether chunks now go to
/// the right edge.
pub type LayoutView = (Seq<Seq<ChunkView>>, bool);

/// Adds one part: a text becomes a chunk at the end of the last line, a
/// line break opens a new line and goes back to the left side.
pub open spec fn apply_part(st: LayoutView, part: Option<Seq<char>>) -> LayoutView {
    match part {
        Some(t) => (
            st.0.update(st.0.len() - 1, st.0.last().push((t, text_width(t), st.1))),
            st.1,
        ),
        None => (st.0.push(Seq::empty()), false),
    }
}

pub open spec fn apply_parts(st: LayoutView, parts: Seq<Option<Seq<char>>>) -> LayoutView
    decreases parts.len(),
{
    if parts.len() == 0 {
        st
    } else {
        apply_part(apply_parts(st, parts.drop_last()), parts.last())
    }
}

/// The prompt lines under construction.
pub struct Layout {
    pub lines: Vec<Vec<RenderedChunk>>,
    pub align_right: bool,
}

impl Layout {
    pub open spec fn view_of(&self) -> LayoutView {
        (self.lines@.map_values(|l: Vec<RenderedChunk>| chunks_view(l@)), self.align_right)
    }

    /// There is always a line to add to.
    pub open spec fn wf(&self) -> bool {
        self.lines@.len() >= 1
    }

    /// One empty line, left side.
    pub fn new() -> (l: Layout)
        ensures
            l.wf(),
            l.view_of() == (seq![Seq::<ChunkView>::empty()], false),
    {
        let mut lines: Vec<Vec<RenderedChunk>> = Vec::new();
        lines.push(Vec::new());
        let l = Layout { lines, align_right: false };
        assert(l.view_of().0 =~= seq![Seq::<ChunkView>::empty()]) by {
            assert(chunks_view(Seq::<RenderedChunk>::empty()) =~= Seq::<ChunkView>::empty());
        }
        l
    }

    /// The align marker: what follows goes to the right edge.
    pub fn align(&mut self)
        ensures
            final(self).lines@ == old(self).lines@,
            final(self).align_right,
    {
        self.align_right = true;
    }

    /// Adds a component's rendered segments: their text split at newlines,
    /// each piece measured.
    pub fn add_segments(&mut self, segments: &[Segment])
        requires
            old(self).wf(),
            rendered(segments@).len() <= usize::MAX / 3,
        ensures
            final(self).wf(),
            final(self).view_of() == apply_parts(
                old(self).view_of(),
                newline_parts(rendered(segments@)),
            ),
    {
        let text = render_segments(segments);
        let parts = split_on_newlines(text.as_str());
        let ghost pv = parts@.map_values(|p: NewlinePart| part_view(p));
        proof {
            lemma_parts_bounded(text@);
        }
        let mut i: usize = 0;
        let ghost start = self.view_of();
        assert(pv.subrange(0, 0) =~= Seq::<Option<Seq<char>>>::empty());
        while i < parts.len()
            invariant
                pv == parts@.map_values(|p: NewlinePart| part_view(p)),
                pv == newline_parts(text@),
                text@ == rendered(segments@),
                text@.len() <= usize::MAX / 3,
                forall|j: int| 0 <= j < pv.len() ==> (#[trigger] pv[j] matches Some(t) ==> t.len() <= text@.len()),
                i <= parts@.len(),
                self.wf(),
                self.view_of() == apply_parts(start, pv.subrange(0, i as int)),
            decreases parts@.len() - i,
        {
            assert(pv.subrange(0, i + 1).drop_last() =~= pv.subrange(0, i as int));
            assert(pv[i as int] == part_view(parts@[i as int]));
            let ghost before = self.view_of();
            match &parts[i] {
                NewlinePart::Text(t) => {
                    let w = display_width(t.as_str());
                    let chunk = RenderedChunk { text: t.clone(), width: w, align_right: self.align_right };
                    let ghost old_lines = self.lines@;
                    let mut line = self.lines.pop().unwrap();
                    let ghost old_line = line@;
                    assert(old_line == old_lines.last()@);
                    line.push(chunk);
                    assert(chunks_view(line@) =~= chunks_view(old_line).push(chunk_view(chunk)));
                    self.lines.push(line);
                    assert(self.lines@ =~= old_lines.update(old_lines.len() - 1, line));
                    let ghost expected = before.0.update(before.0.len() - 1, before.0.last().push((t@, text_width(t@), self.align_right)));
                    assert forall|j: int| 0 <= j < expected.len() implies #[trigger] self.view_of().0[j] == expected[j] by {
                        if j < expected.len() - 1 {
                            assert(self.lines@[j] == old_lines[j]);
                        }
                    }
                    assert(self.view_of().0 =~= expected);
                },
                NewlinePart::Newline => {
                    let ghost old_lines = self.lines@;
                    self.lines.push(Vec::new());
                    self.align_right = false;
                    let ghost expected = before.0.push(Seq::<ChunkView>::empty());
                    assert forall|j: int| 0 <= j < expected.len() implies #[trigger] self.view_of().0[j] == expected[j] by {
                        if j < expected.len() - 1 {
                            assert(self.lines@[j] == old_lines[j]);
                        } else {
                            assert(chunks_view(self.lines@[j]@) =~= Seq::<ChunkView>::empty());
                        }
                    }
                    assert(self.view_of().0 =~= expected);
                },
            }
            i = i + 1;
        }
        assert(pv.subrange(0, pv.len() as int) =~= pv);
    }
}

proof fn lemma_split_pieces_bounded(s: Seq<char>, c: char)
    ensures
        forall|i: int| 0 <= i < split_char(s, c).len() ==> (#[trigger] split_char(s, c)[i]).len() <= s.len(),
    decreases s.len(),
{
    crate::text::lemma_split_char_len(s, c);
    if s.len() > 0 {
        lemma_split_pieces_bounded(s.drop_last(), c);
        crate::text::lemma_split_char_len(s.drop_last(), c);
    }
}

proof fn lemma_closed_parts_bounded(q: Seq<Seq<char>>, n: nat)
    requires
        forall|i: int| 0 <= i < q.len() ==> (#[trigger] q[i]).len() <= n,
    ensures
        forall|j: int| 0 <= j < closed_parts(q).len() ==> (#[trigger] closed_parts(q)[j] matches Some(t) ==> t.len() <= n),
    decreases q.len(),
{
    if q.len() > 0 {
        let init = q.drop_last();
        assert forall|i: int| 0 <= i < init.len() implies (#[trigger] init[i]).len() <= n by {
            assert(init[i] == q[i]);
        }
        lemma_closed_parts_bounded(init, n);
        let a = closed_parts(init);
        let b = text_part(q.last());
        assert forall|j: int| 0 <= j < closed_parts(q).len() implies (#[trigger] closed_parts(q)[j] matches Some(t) ==> t.len() <= n) by {
            if j < a.len() {
                assert(closed_parts(q)[j] == a[j]);
            } else if j < a.len() + b.len() {
                assert(closed_parts(q)[j] == b[j - a.len()]);
            }
        }
    }
}

/// Every text part is at most as long as the whole text.
proof fn lemma_parts_bounded(s: Seq<char>)
    ensures
        forall|j: int| 0 <= j < newline_parts(s).len() ==> (#[trigger] newline_parts(s)[j] matches Some(t) ==> t.len() <= s.len()),
{
    let pieces = split_char(s, '\n');
    crate::text::lemma_split_char_len(s, '\n');
    lemma_split_pieces_bounded(s, '\n');
    let q = pieces.drop_last();
    assert forall|i: int| 0 <= i < q.len() implies (#[trigger] q[i]).len() <= s.len() by {
        assert(q[i] == pieces[i]);
    }
    lemma_closed_parts_bounded(q, s.len());
    let a = closed_parts(q);
    let b = text_part(pieces.last());
    assert forall|j: int| 0 <= j < newline_parts(s).len() implies (#[trigger] newline_parts(s)[j] matches Some(t) ==> t.len() <= s.len()) by {
        if j < a.len() {
            assert(newline_parts(s)[j] == a[j]);
        } else {
            assert(newline_parts(s)[j] == b[j - a.len()]);
        }
    }
}


/// The whole prompt: every line laid out, joined by newlines.
pub open spec fn layout_text(lines: Seq<Seq<ChunkView>>, term_width: nat) -> Seq<char> {
    crate::text::join_with(lines.map_values(|l: Seq<ChunkView>| line_text(l, term_width)), seq!['\n'])
}

impl Layout {
    /// Lays out every line for a terminal of `term_width` columns.
    pub fn finish(&self, term_width: usize) -> (out: String)
        requires
            forall|i: int| 0 <= i < self.view_of().0.len() ==> line_fits(#[trigger] self.view_of().0[i]),
        ensures
            out@ == layout_text(self.view_of().0, term_width as nat),
    {
        let ghost lines = self.view_of().0;
        let ghost texts = lines.map_values(|l: Seq<ChunkView>| line_text(l, term_width as nat));
        let mut out = String::new();
        let mut i: usize = 0;
        while i < self.lines.len()
            invariant
                lines == self.view_of().0,
                texts == lines.map_values(|l: Seq<ChunkView>| line_text(l, term_width as nat)),
                forall|j: int| 0 <= j < lines.len() ==> line_fits(#[trigger] lines[j]),
                i <= self.lines@.len(),
                out@ == crate::text::join_with(texts.subrange(0, i as int), seq!['\n']),
            decreases self.lines@.len() - i,
        {
            let ghost before = out@;
            assert(lines[i as int] == chunks_view(self.lines@[i as int]@));
            if i > 0 {
                string_push(&mut out, '\n');
            }
            let line = render_line(self.lines[i].as_slice(), term_width);
            push_str(&mut out, line.as_str());
            let ghost sub = texts.subrange(0, i + 1);
            assert(sub.drop_last() =~= texts.subrange(0, i as int));
            if i == 0 {
                assert(out@ =~= crate::text::join_with(sub, seq!['\n']));
            } else {
                assert(out@ =~= crate::text::join_with(sub, seq!['\n']));
            }
            i = i + 1;
        }
        assert(texts.subrange(0, texts.len() as int) =~= texts);
        out
    }
}


/// When there are right-aligned chunks, the right side ends exactly at the
/// terminal's last column whenever the line fits, and one column further
/// than the chunks need otherwise.
pub proof fn law_right_side_reaches_edge(cs: Seq<ChunkView>, term_width: nat)
    ensures
        ({
            let used = side_width(cs, false) + side_width(cs, true);
            side_width(cs, false) + padding(cs, term_width) + side_width(cs, true) == if term_width
                > used + 1 {
                term_width
            } else {
                used + 1
            }
        }),
{
}

/// How many line breaks there are among the parts.
pub open spec fn count_breaks(parts: Seq<Option<Seq<char>>>) -> nat
    decreases parts.len(),
{
    if parts.len() == 0 {
        0
    } else {
        count_breaks(parts.drop_last()) + if parts.last() is None {
            1nat
        } else {
            0nat
        }
    }
}

/// How many times `c` occurs in `s`.
pub open spec fn count_char(s: Seq<char>, c: char) -> nat
    decreases s.len(),
{
    if s.len() == 0 {
        0
    } else {
        count_char(s.drop_last(), c) + if s.last() == c {
            1nat
        } else {
            0nat
        }
    }
}

proof fn lemma_count_breaks_concat(a: Seq<Option<Seq<char>>>, b: Seq<Option<Seq<char>>>)
    ensures
        count_breaks(a + b) == count_breaks(a) + count_breaks(b),
    decreases b.len(),
{
    if b.len() == 0 {
        assert(a + b =~= a);
    } else {
        assert((a + b).drop_last() =~= a + b.drop_last());
        lemma_count_breaks_concat(a, b.drop_last());
    }
}

proof fn lemma_count_breaks_text_part(x: Seq<char>)
    ensures
        count_breaks(text_part(x)) == 0,
{
    assert(count_breaks(Seq::<Option<Seq<char>>>::empty()) == 0);
    if x.len() > 0 {
        let one = seq![Some(x)];
        assert(one.drop_last() =~= Seq::<Option<Seq<char>>>::empty());
        assert(count_breaks(one) == count_breaks(one.drop_last()) + 0);
    } else {
        assert(text_part(x) =~= Seq::<Option<Seq<char>>>::empty());
    }
}

proof fn lemma_count_breaks_closed(q: Seq<Seq<char>>)
    ensures
        count_breaks(closed_parts(q)) == q.len(),
    decreases q.len(),
{
    if q.len() > 0 {
        lemma_count_breaks_closed(q.drop_last());
        let a = closed_parts(q.drop_last());
        let t = text_part(q.last());
        lemma_count_breaks_concat(a, t);
        lemma_count_breaks_concat(a + t, seq![None]);
        lemma_count_breaks_text_part(q.last());
        let one = seq![None::<Seq<char>>];
        assert(one.drop_last() =~= Seq::<Option<Seq<char>>>::empty());
        assert(count_breaks(Seq::<Option<Seq<char>>>::empty()) == 0);
        assert(count_breaks(one) == count_breaks(one.drop_last()) + 1);
    } else {
        assert(closed_parts(q) =~= Seq::<Option<Seq<char>>>::empty());
    }
}

proof fn lemma_split_char_count(s: Seq<char>, c: char)
    ensures
        split_char(s, c).len() == count_char(s, c) + 1,
    decreases s.len(),
{
    if s.len() > 0 {
        lemma_split_char_count(s.drop_last(), c);
    }
}

proof fn lemma_apply_parts_lines(st: LayoutView, parts: Seq<Option<Seq<char>>>)
    requires
        st.0.len() >= 1,
    ensures
        apply_parts(st, parts).0.len() == st.0.len() + count_breaks(parts),
    decreases parts.len(),
{
    if parts.len() > 0 {
        lemma_apply_parts_lines(st, parts.drop_last());
    }
}

/// Every newline in a component's rendered text starts a new prompt line,
/// and nothing else does.
pub proof fn law_newlines_start_lines(st: LayoutView, s: Seq<char>)
    requires
        st.0.len() >= 1,
    ensures
        apply_parts(st, newline_parts(s)).0.len() == st.0.len() + count_char(s, '\n'),
{
    let pieces = split_char(s, '\n');
    crate::text::lemma_split_char_len(s, '\n');
    lemma_split_char_count(s, '\n');
    lemma_count_breaks_closed(pieces.drop_last());
    lemma_count_breaks_text_part(pieces.last());
    lemma_count_breaks_concat(closed_parts(pieces.drop_last()), text_part(pieces.last()));
    lemma_apply_parts_lines(st, newline_parts(s));
}

/// Every text among the parts is non-empty and holds no newline.
pub open spec fn texts_clean(parts: Seq<Option<Seq<char>>>) -> bool {
    forall|i: int| 0 <= i < parts.len() ==> (#[trigger] parts[i] matches Some(t) ==> t.len() > 0 && !t.contains('\n'))
}

proof fn lemma_texts_clean_closed(q: Seq<Seq<char>>)
    requires
        forall|i: int| 0 <= i < q.len() ==> !(#[trigger] q[i]).contains('\n'),
    ensures
        texts_clean(closed_parts(q)),
    decreases q.len(),
{
    if q.len() > 0 {
        let init = q.drop_last();
        assert forall|i: int| 0 <= i < init.len() implies !(#[trigger] init[i]).contains('\n') by {
            assert(init[i] == q[i]);
        }
        lemma_texts_clean_closed(init);
        assert(!q[q.len() - 1].contains('\n'));
    } else {
        assert(closed_parts(q) =~= Seq::<Option<Seq<char>>>::empty());
    }
}

/// Splitting a text at newlines gives no empty text and no text holding a
/// newline, and exactly one line break per newline of the text.
pub proof fn law_newline_parts_shape(s: Seq<char>)
    ensures
        texts_clean(newline_parts(s)),
        count_breaks(newline_parts(s)) == count_char(s, '\n'),
{
    let pieces = split_char(s, '\n');
    crate::text::lemma_split_char_len(s, '\n');
    crate::text::lemma_split_char_pieces(s, '\n');
    let q = pieces.drop_last();
    assert forall|i: int| 0 <= i < q.len() implies !(#[trigger] q[i]).contains('\n') by {
        assert(q[i] == pieces[i]);
    }
    lemma_texts_clean_closed(q);
    assert(!pieces[pieces.len() - 1].contains('\n'));
    assert(texts_clean(newline_parts(s)));
    lemma_split_char_count(s, '\n');
    lemma_count_breaks_closed(q);
    lemma_count_breaks_text_part(pieces.last());
    lemma_count_breaks_concat(closed_parts(q), text_part(pieces.last()));
}

/// Each side of a line keeps its chunks in the order they came: the side
/// text of two runs of chunks is the side text of the first followed by that
/// of the second.
pub proof fn law_side_text_in_order(a: Seq<ChunkView>, b: Seq<ChunkView>, right: bool)
    ensures
        side_text(a + b, right) == side_text(a, right) + side_text(b, right),
    decreases b.len(),
{
    if b.len() == 0 {
        assert(a + b =~= a);
        assert(side_text(a, right) + side_text(b, right) =~= side_text(a, right));
    } else {
        assert((a + b).drop_last() =~= a + b.drop_last());
        assert((a + b).last() == b.last());
        law_side_text_in_order(a, b.drop_last(), right);
        assert(side_text(a + b, right) =~= side_text(a, right) + side_text(b, right));
    }
}

/// A chunk added to a line goes after everything already on its side, and
/// leaves the other side as it was.
pub proof fn law_chunk_goes_last(cs: Seq<ChunkView>, c: ChunkView)
    ensures
        side_text(cs.push(c), c.2) == side_text(cs, c.2) + c.0,
        side_text(cs.push(c), !c.2) == side_text(cs, !c.2),
{
    assert(cs.push(c).drop_last() =~= cs);
    assert(side_text(cs, !c.2) + Seq::<char>::empty() =~= side_text(cs, !c.2));
}

} // verus!
