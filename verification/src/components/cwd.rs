//! The working directory component.
use vstd::prelude::*;

use crate::color::{Color, Segment};
use crate::component::Context;
use crate::text::{join_from, join_with, non_empty, starts_with, push_str, replace, replace_all, split_by, split_pat, string_push};

verus! {

/// Settings of the working directory component.
pub struct CwdConfig {
    /// How many trailing directories to show.
    pub depth: usize,
    /// Replacements made in the path before it is shortened, in the order in
    /// which they are applied; no left-hand side occurs twice.
    pub substitutions: Vec<(String, String)>,
}

impl CwdConfig {
    /// No left-hand side of a substitution occurs twice.
    pub open spec fn wf(&self) -> bool {
        forall|i: int, j: int|
            0 <= i < j < self.substitutions@.len() ==> (#[trigger] self.substitutions@[i]).0@
                != (#[trigger] self.substitutions@[j]).0@
    }
}

impl Default for CwdConfig {
    fn default() -> (c: CwdConfig)
        ensures
            c.depth == 3,
            c.substitutions@.len() == 0,
    {
        CwdConfig { depth: 3, substitutions: Vec::new() }
    }
}

/// What the working directory component shows.
pub struct CwdData {
    /// The path shortened to the configured depth.
    pub short_path: String,
}

/// The path's non-empty components, the last `depth` of them, joined by `/`.
pub open spec fn short_path(path: Seq<char>, depth: nat) -> Seq<char> {
    let parts = non_empty(split_pat(path, seq!['/']));
    let start = if parts.len() > depth {
        parts.len() - depth
    } else {
        0
    };
    join_with(parts.skip(start), seq!['/'])
}

/// The substitutions applied one after another.
pub open spec fn substituted(text: Seq<char>, subs: Seq<(String, String)>) -> Seq<char>
    decreases subs.len(),
{
    if subs.len() == 0 {
        text
    } else {
        let t = substituted(text, subs.drop_last());
        replace_all(t, subs.last().0@, subs.last().1@)
    }
}

/// Keeps the last `depth` components of a path.
pub fn get_short_path(path: &str, depth: usize) -> (s: String)
    ensures
        s@ == short_path(path@, depth as nat),
{
    let slash = "/";
    proof {
        reveal_strlit("/");
    }
    assert(slash@ =~= seq!['/']);
    let pieces = split_by(path, slash);
    let ghost pv = pieces@.map_values(|t: String| t@);
    let mut parts: Vec<String> = Vec::new();
    let mut i: usize = 0;
    assert(pv.subrange(0, 0) =~= Seq::<Seq<char>>::empty());
    assert(parts@.map_values(|t: String| t@) =~= Seq::<Seq<char>>::empty());
    while i < pieces.len()
        invariant
            i <= pieces@.len(),
            pv == pieces@.map_values(|t: String| t@),
            parts@.map_values(|t: String| t@) == non_empty(pv.subrange(0, i as int)),
        decreases pieces@.len() - i,
    {
        let ghost sub = pv.subrange(0, i + 1);
        assert(sub.drop_last() =~= pv.subrange(0, i as int));
        assert(sub.last() == pieces@[i as int]@);
        if !pieces[i].as_str().is_empty() {
            let ghost old_parts = parts@;
            parts.push(pieces[i].clone());
            assert(parts@.map_values(|t: String| t@) =~= old_parts.map_values(|t: String| t@).push(pieces@[i as int]@));
        } else {
            assert(pieces@[i as int]@.len() == 0);
        }
        i = i + 1;
    }
    assert(pv.subrange(0, pv.len() as int) =~= pv);
    let start = if parts.len() > depth { parts.len() - depth } else { 0 };
    join_from(&parts, start, '/')
}

/// Applies the substitutions to the text in order.
pub fn apply_substitutions(text: String, subs: &[(String, String)]) -> (s: String)
    ensures
        s@ == substituted(text@, subs@),
{
    let mut t = text;
    let mut i: usize = 0;
    assert(subs@.subrange(0, 0) =~= Seq::<(String, String)>::empty());
    while i < subs.len()
        invariant
            i <= subs@.len(),
            t@ == substituted(text@, subs@.subrange(0, i as int)),
        decreases subs@.len() - i,
    {
        assert(subs@.subrange(0, i + 1).drop_last() =~= subs@.subrange(0, i as int));
        let (lhs, rhs) = &subs[i];
        t = replace(t.as_str(), lhs.as_str(), rhs.as_str());
        i = i + 1;
    }
    assert(subs@.subrange(0, subs@.len() as int) =~= subs@);
    t
}

/// The working directory with the substitutions made, shortened to the
/// configured depth.
pub fn get_cwd_data(ctx: &Context, config: &CwdConfig) -> (d: CwdData)
    ensures
        d.short_path@ == short_path(
            substituted(ctx.cwd@, config.substitutions@),
            config.depth as nat,
        ),
{
    let raw = ctx.cwd.clone();
    let substituted = apply_substitutions(raw, config.substitutions.as_slice());
    CwdData { short_path: get_short_path(substituted.as_str(), config.depth) }
}

/// Orange (`#FFA500`).
pub open spec fn orange() -> Color {
    Color { r: 0xff, g: 0xa5, b: 0x00 }
}

/// One orange segment: a space and the short path.
pub fn render_cwd(data: &CwdData) -> (segs: Vec<Segment>)
    ensures
        segs@.len() == 1,
        segs@[0].text@ == seq![' '] + data.short_path@,
        segs@[0].color == Some(orange()),
{
    let mut text = String::new();
    string_push(&mut text, ' ');
    push_str(&mut text, data.short_path.as_str());
    let mut segs = Vec::new();
    segs.push(Segment::new(text, Color { r: 0xff, g: 0xa5, b: 0x00 }));
    segs
}


proof fn lemma_split_pat_sep(a: Seq<char>, b: Seq<char>, c: char)
    ensures
        split_pat(a + seq![c] + b, seq![c]) == split_pat(a, seq![c]) + split_pat(b, seq![c]),
    decreases a.len(),
{
    let p = seq![c];
    let s = a + p + b;
    crate::text::lemma_split_pat_len(b, p);
    if a.len() == 0 {
        assert(s =~= p + b);
        assert(s.subrange(0, 1) =~= p);
        assert(s.skip(1) =~= b);
        assert(a =~= Seq::<char>::empty());
        assert(split_pat(a, p) =~= seq![Seq::<char>::empty()]);
    } else {
        let a2 = a.drop_first();
        lemma_split_pat_sep(a2, b, c);
        crate::text::lemma_split_pat_len(a2, p);
        assert(s.drop_first() =~= a2 + p + b);
        if a[0] == c {
            assert(s.subrange(0, 1) =~= p);
            assert(a.subrange(0, 1) =~= p);
            assert(s.skip(1) =~= a2 + p + b);
            assert(a.skip(1) =~= a2);
            assert(split_pat(s, p) =~= split_pat(a, p) + split_pat(b, p));
        } else {
            assert(!starts_with(s, p)) by {
                assert(s.subrange(0, 1)[0] == a[0]);
            }
            assert(!starts_with(a, p)) by {
                assert(a.subrange(0, 1)[0] == a[0]);
            }
            assert(s[0] == a[0]);
            assert(split_pat(s, p) =~= split_pat(a, p) + split_pat(b, p));
        }
    }
}

proof fn lemma_split_pat_plain(a: Seq<char>, c: char)
    requires
        !a.contains(c),
    ensures
        split_pat(a, seq![c]) == seq![a],
    decreases a.len(),
{
    let p = seq![c];
    if a.len() > 0 {
        let a2 = a.drop_first();
        assert(!a2.contains(c)) by {
            if a2.contains(c) {
                let k = choose|k: int| 0 <= k < a2.len() && a2[k] == c;
                assert(a[k + 1] == c);
            }
        }
        lemma_split_pat_plain(a2, c);
        assert(a[0] != c) by {
            if a[0] == c {
                assert(a.contains(c));
            }
        }
        assert(!starts_with(a, p)) by {
            assert(a.subrange(0, 1)[0] == a[0]);
        }
        assert(seq![a[0]] + a2 =~= a);
        assert(split_pat(a, p) =~= seq![a]);
    } else {
        assert(split_pat(a, p) =~= seq![a]);
    }
}

/// Splitting pieces without the separator, joined by it, gives them back.
proof fn lemma_split_join_pieces(q: Seq<Seq<char>>, c: char)
    requires
        q.len() >= 1,
        forall|i: int| 0 <= i < q.len() ==> !(#[trigger] q[i]).contains(c),
    ensures
        split_pat(join_with(q, seq![c]), seq![c]) == q,
    decreases q.len(),
{
    if q.len() == 1 {
        lemma_split_pat_plain(q[0], c);
        assert(seq![q[0]] =~= q);
    } else {
        let init = q.drop_last();
        assert forall|i: int| 0 <= i < init.len() implies !(#[trigger] init[i]).contains(c) by {
            assert(init[i] == q[i]);
        }
        lemma_split_join_pieces(init, c);
        lemma_split_pat_sep(join_with(init, seq![c]), q.last(), c);
        lemma_split_pat_plain(q.last(), c);
        assert(init + seq![q.last()] =~= q);
    }
}

proof fn lemma_non_empty_props(q: Seq<Seq<char>>, c: char)
    requires
        forall|i: int| 0 <= i < q.len() ==> !(#[trigger] q[i]).contains(c),
    ensures
        forall|i: int| 0 <= i < non_empty(q).len() ==> (#[trigger] non_empty(q)[i]).len() > 0 && !non_empty(q)[i].contains(c),
        non_empty(q).len() <= q.len(),
    decreases q.len(),
{
    if q.len() > 0 {
        let init = q.drop_last();
        assert forall|i: int| 0 <= i < init.len() implies !(#[trigger] init[i]).contains(c) by {
            assert(init[i] == q[i]);
        }
        lemma_non_empty_props(init, c);
        let r = non_empty(init);
        assert forall|i: int| 0 <= i < non_empty(q).len() implies (#[trigger] non_empty(q)[i]).len() > 0 && !non_empty(q)[i].contains(c) by {
            if i < r.len() {
                assert(non_empty(q)[i] == r[i]);
            } else {
                assert(non_empty(q)[i] == q.last());
                assert(q.last() == q[q.len() - 1]);
            }
        }
    }
}

proof fn lemma_non_empty_id(q: Seq<Seq<char>>)
    requires
        forall|i: int| 0 <= i < q.len() ==> (#[trigger] q[i]).len() > 0,
    ensures
        non_empty(q) == q,
    decreases q.len(),
{
    if q.len() > 0 {
        let init = q.drop_last();
        assert forall|i: int| 0 <= i < init.len() implies (#[trigger] init[i]).len() > 0 by {
            assert(init[i] == q[i]);
        }
        lemma_non_empty_id(init);
        assert(q.last() == q[q.len() - 1]);
        assert(init.push(q.last()) =~= q);
    }
}

proof fn lemma_split_pat_pieces(s: Seq<char>, c: char)
    ensures
        forall|i: int| 0 <= i < split_pat(s, seq![c]).len() ==> !(#[trigger] split_pat(s, seq![c])[i]).contains(c),
    decreases s.len(),
{
    let p = seq![c];
    crate::text::lemma_split_pat_len(s, p);
    if s.len() > 0 {
        if starts_with(s, p) {
            let rest = s.skip(1);
            lemma_split_pat_pieces(rest, c);
            let r = split_pat(rest, p);
            assert forall|i: int| 0 <= i < split_pat(s, p).len() implies !(#[trigger] split_pat(s, p)[i]).contains(c) by {
                if i == 0 {
                    assert(split_pat(s, p)[0] =~= Seq::<char>::empty());
                } else {
                    assert(split_pat(s, p)[i] == r[i - 1]);
                }
            }
        } else {
            let rest = s.drop_first();
            lemma_split_pat_pieces(rest, c);
            crate::text::lemma_split_pat_len(rest, p);
            let r = split_pat(rest, p);
            assert(s[0] != c) by {
                if s[0] == c {
                    assert(s.subrange(0, 1) =~= p);
                }
            }
            assert forall|i: int| 0 <= i < split_pat(s, p).len() implies !(#[trigger] split_pat(s, p)[i]).contains(c) by {
                if i == 0 {
                    let first = seq![s[0]] + r[0];
                    assert(split_pat(s, p)[0] == first);
                    if first.contains(c) {
                        let k = choose|k: int| 0 <= k < first.len() && first[k] == c;
                        assert(r[0][k - 1] == c);
                    }
                } else {
                    assert(split_pat(s, p)[i] == r[i]);
                }
            }
        }
    }
}

/// The path components that a short path keeps: non-empty, without `/`,
/// and at most `depth` of them.
proof fn lemma_short_parts(path: Seq<char>, depth: nat)
    ensures
        ({
            let parts = non_empty(split_pat(path, seq!['/']));
            let start = if parts.len() > depth { parts.len() - depth } else { 0 };
            let kept = parts.skip(start);
            &&& kept.len() <= depth
            &&& forall|i: int| 0 <= i < kept.len() ==> (#[trigger] kept[i]).len() > 0 && !kept[i].contains('/')
            &&& non_empty(split_pat(short_path(path, depth), seq!['/'])) == kept
        }),
{
    let parts = non_empty(split_pat(path, seq!['/']));
    lemma_split_pat_pieces(path, '/');
    lemma_non_empty_props(split_pat(path, seq!['/']), '/');
    let start = if parts.len() > depth { parts.len() - depth } else { 0 };
    let kept = parts.skip(start);
    assert forall|i: int| 0 <= i < kept.len() implies (#[trigger] kept[i]).len() > 0 && !kept[i].contains('/') by {
        assert(kept[i] == parts[i + start]);
    }
    if kept.len() == 0 {
        assert(join_with(kept, seq!['/']) =~= Seq::<char>::empty());
        assert(split_pat(Seq::<char>::empty(), seq!['/']) =~= seq![Seq::<char>::empty()]);
        assert(non_empty(seq![Seq::<char>::empty()]) =~= Seq::<Seq<char>>::empty()) by {
            let one = seq![Seq::<char>::empty()];
            assert(one.drop_last() =~= Seq::<Seq<char>>::empty());
            assert(non_empty(Seq::<Seq<char>>::empty()) =~= Seq::<Seq<char>>::empty());
            assert(one.last().len() == 0);
        }
    } else {
        lemma_split_join_pieces(kept, '/');
        lemma_non_empty_id(kept);
    }
}

/// A short path keeps at most `depth` components.
pub proof fn law_short_path_depth(path: Seq<char>, depth: nat)
    ensures
        non_empty(split_pat(short_path(path, depth), seq!['/'])).len() <= depth,
{
    lemma_short_parts(path, depth);
}

/// Shortening a short path again to the same depth changes nothing.
pub proof fn law_short_path_idempotent(path: Seq<char>, depth: nat)
    ensures
        short_path(short_path(path, depth), depth) == short_path(path, depth),
{
    lemma_short_parts(path, depth);
    let parts = non_empty(split_pat(path, seq!['/']));
    let start = if parts.len() > depth { parts.len() - depth } else { 0 };
    let kept = parts.skip(start);
    assert(kept.skip(0) =~= kept);
}

/// Substitutions compose: applying a list of substitutions and then more is
/// applying the first list to the text and the rest to what came of it.
pub proof fn law_substitutions_compose(text: Seq<char>, a: Seq<(String, String)>, b: Seq<(String, String)>)
    ensures
        substituted(text, a + b) == substituted(substituted(text, a), b),
    decreases b.len(),
{
    if b.len() == 0 {
        assert(a + b =~= a);
    } else {
        assert((a + b).drop_last() =~= a + b.drop_last());
        assert((a + b).last() == b.last());
        law_substitutions_compose(text, a, b.drop_last());
    }
}

/// The last substitution acts on the text that the earlier ones left, and
/// with no substitutions the text stays as it is.
pub proof fn law_substitution_applies_to_result(text: Seq<char>, subs: Seq<(String, String)>, l: String, r: String)
    ensures
        substituted(text, subs.push((l, r))) == replace_all(substituted(text, subs), l@, r@),
        substituted(text, Seq::empty()) == text,
{
    assert(subs.push((l, r)).drop_last() =~= subs);
}

} // verus!
