//! The jj component.
use vstd::prelude::*;

use crate::color::{lemma_push_all, lemma_push_contains, push_segment, segs_view, Color, Segment};
use crate::text::{
    chars_of, decimal, join_from, join_with, lines, lines_of, push_decimal, starts_with,
    str_starts_with, string_from_chars, string_from_range, string_push, trim, trim_chars,
};

verus! {

/// What the jj component shows.
pub struct JJData {
    pub change_id: String,
    pub files_added: u32,
    pub files_modified: u32,
    pub files_deleted: u32,
    pub files_conflict: u32,
    pub description: String,
}

/// How many of the lines start with `p`.
pub open spec fn count_prefixed(ls: Seq<Seq<char>>, p: Seq<char>) -> nat
    decreases ls.len(),
{
    if ls.len() == 0 {
        0
    } else {
        count_prefixed(ls.drop_last(), p) + if starts_with(ls.last(), p) {
            1nat
        } else {
            0nat
        }
    }
}

proof fn lemma_count_prefixed_bound(ls: Seq<Seq<char>>, p: Seq<char>)
    ensures
        count_prefixed(ls, p) <= ls.len(),
    decreases ls.len(),
{
    if ls.len() > 0 {
        lemma_count_prefixed_bound(ls.drop_last(), p);
    }
}

/// Counts the added, modified, deleted and conflicted files of
/// `jj diff --summary`: the lines starting with `A `, `M `, `D ` and `C `.
pub fn count_diff_summary(output: &str) -> (r: (u32, u32, u32, u32))
    requires
        lines_of(output@).len() <= u32::MAX,
    ensures
        r.0 == count_prefixed(lines_of(output@), "A "@),
        r.1 == count_prefixed(lines_of(output@), "M "@),
        r.2 == count_prefixed(lines_of(output@), "D "@),
        r.3 == count_prefixed(lines_of(output@), "C "@),
{
    let ls = lines(output);
    let ghost lv = ls@.map_values(|t: String| t@);
    let mut added: u32 = 0;
    let mut modified: u32 = 0;
    let mut deleted: u32 = 0;
    let mut conflict: u32 = 0;
    let mut i: usize = 0;
    assert(lv.subrange(0, 0) =~= Seq::<Seq<char>>::empty());
    while i < ls.len()
        invariant
            i <= ls@.len(),
            lv == ls@.map_values(|t: String| t@),
            lv == lines_of(output@),
            lv.len() <= u32::MAX,
            added == count_prefixed(lv.subrange(0, i as int), "A "@),
            modified == count_prefixed(lv.subrange(0, i as int), "M "@),
            deleted == count_prefixed(lv.subrange(0, i as int), "D "@),
            conflict == count_prefixed(lv.subrange(0, i as int), "C "@),
        decreases ls@.len() - i,
    {
        let line = ls[i].as_str();
        let ghost sub = lv.subrange(0, i + 1);
        assert(sub.drop_last() =~= lv.subrange(0, i as int));
        assert(sub.last() == line@);
        proof {
            lemma_count_prefixed_bound(lv.subrange(0, i as int), "A "@);
            lemma_count_prefixed_bound(lv.subrange(0, i as int), "M "@);
            lemma_count_prefixed_bound(lv.subrange(0, i as int), "D "@);
            lemma_count_prefixed_bound(lv.subrange(0, i as int), "C "@);
            reveal_strlit("A ");
            reveal_strlit("M ");
            reveal_strlit("D ");
            reveal_strlit("C ");
        }
        let a = str_starts_with(line, "A ");
        let m = str_starts_with(line, "M ");
        let d = str_starts_with(line, "D ");
        let c = str_starts_with(line, "C ");
        assert(a ==> !m && !d && !c) by {
            if a {
                assert(line@.subrange(0, 2)[0] == 'A');
            }
        }
        assert(m ==> !d && !c) by {
            if m {
                assert(line@.subrange(0, 2)[0] == 'M');
            }
        }
        assert(d ==> !c) by {
            if d {
                assert(line@.subrange(0, 2)[0] == 'D');
            }
        }
        if a {
            added = added + 1;
        } else if m {
            modified = modified + 1;
        } else if d {
            deleted = deleted + 1;
        } else if c {
            conflict = conflict + 1;
        }
        i = i + 1;
    }
    assert(lv.subrange(0, lv.len() as int) =~= lv);
    (added, modified, deleted, conflict)
}

/// The change id of `jj log`'s first line, trimmed, or `????` when it is
/// missing or blank.
pub open spec fn log_change_id(ls: Seq<Seq<char>>) -> Seq<char> {
    if ls.len() > 0 && trim(ls[0]).len() > 0 {
        trim(ls[0])
    } else {
        "????"@
    }
}

/// The description: the lines after the first joined by newlines and
/// trimmed, or `(no description set)` when that is blank.
pub open spec fn log_description(ls: Seq<Seq<char>>) -> Seq<char> {
    if ls.len() > 1 && trim(join_with(ls.skip(1), seq!['\n'])).len() > 0 {
        trim(join_with(ls.skip(1), seq!['\n']))
    } else {
        "(no description set)"@
    }
}

/// Reads (change id, description) from `jj log` output.
pub fn parse_jj_log(output: &str) -> (r: (String, String))
    ensures
        r.0@ == log_change_id(lines_of(output@)),
        r.1@ == log_description(lines_of(output@)),
{
    let ls = lines(output);
    let ghost lv = ls@.map_values(|t: String| t@);
    let mut change_id = "????".to_string();
    let mut description = "(no description set)".to_string();
    if ls.len() > 0 {
        let id = chars_of(ls[0].as_str());
        let trimmed = trim_chars(&id);
        if trimmed.len() > 0 {
            change_id = string_from_chars(trimmed.as_slice());
        }
    }
    if ls.len() > 1 {
        let joined = join_from(&ls, 1, '\n');
        let jv = chars_of(joined.as_str());
        let desc = trim_chars(&jv);
        if desc.len() > 0 {
            description = string_from_chars(desc.as_slice());
        }
    }
    (change_id, description)
}

/// The jj data: nothing outside a jj repository; otherwise the counts of the
/// diff summary and the change id and description of the log, when those
/// commands ran.
pub fn get_jj_data(root_exists: bool, diff_output: Option<&str>, log_output: Option<&str>) -> (d: Option<JJData>)
    requires
        diff_output matches Some(t) ==> lines_of(t@).len() <= u32::MAX,
    ensures
        d is Some <==> root_exists,
        d matches Some(data) ==> {
            &&& (match diff_output {
                Some(t) => {
                    &&& data.files_added == count_prefixed(lines_of(t@), "A "@)
                    &&& data.files_modified == count_prefixed(lines_of(t@), "M "@)
                    &&& data.files_deleted == count_prefixed(lines_of(t@), "D "@)
                    &&& data.files_conflict == count_prefixed(lines_of(t@), "C "@)
                },
                None => data.files_added == 0 && data.files_modified == 0 && data.files_deleted == 0
                    && data.files_conflict == 0,
            })
            &&& (match log_output {
                Some(t) => data.change_id@ == log_change_id(lines_of(t@))
                    && data.description@ == log_description(lines_of(t@)),
                None => data.change_id@ == "????"@ && data.description@ == "(no description set)"@,
            })
        },
{
    if !root_exists {
        return None;
    }
    let (files_added, files_modified, files_deleted, files_conflict) = match diff_output {
        Some(t) => count_diff_summary(t),
        None => (0, 0, 0, 0),
    };
    let (change_id, description) = match log_output {
        Some(t) => parse_jj_log(t),
        None => ("????".to_string(), "(no description set)".to_string()),
    };
    Some(JJData { change_id, files_added, files_modified, files_deleted, files_conflict, description })
}


pub open spec fn jj_blue() -> Color {
    Color { r: 0x5f, g: 0xaf, b: 0xff }
}

pub open spec fn jj_purple() -> Color {
    Color { r: 0xaf, g: 0x87, b: 0xd7 }
}

pub open spec fn jj_magenta() -> Color {
    Color { r: 0xd7, g: 0x87, b: 0xd7 }
}

pub open spec fn jj_gray() -> Color {
    Color { r: 0xbc, g: 0xbc, b: 0xbc }
}

pub open spec fn jj_dark() -> Color {
    Color { r: 0x44, g: 0x44, b: 0x44 }
}

pub open spec fn jj_green() -> Color {
    Color { r: 0x5f, g: 0xaf, b: 0x5f }
}

/// A count segment (`!3 `) when the count is not zero.
pub open spec fn count_segment(
    s: Seq<(Seq<char>, Option<Color>)>,
    mark: char,
    n: u32,
) -> Seq<(Seq<char>, Option<Color>)> {
    if n > 0 {
        s.push((seq![mark] + decimal(n as nat) + seq![' '], Some(jj_purple())))
    } else {
        s
    }
}

/// The first line of the description, or the whole description when it has
/// no lines.
pub open spec fn first_line(desc: Seq<char>) -> Seq<char> {
    if lines_of(desc).len() > 0 {
        lines_of(desc)[0]
    } else {
        desc
    }
}

/// The segments of the jj component: the label, the file counts, the change
/// id with its first character set apart, and the first description line.
pub open spec fn jj_segments(d: JJData) -> Seq<(Seq<char>, Option<Color>)> {
    let s0 = seq![(seq!['j', 'j', ' ', ' '], Some(jj_blue()))];
    let s1 = count_segment(s0, '!', d.files_modified);
    let s2 = count_segment(s1, '+', d.files_added);
    let s3 = count_segment(s2, '-', d.files_deleted);
    let s4 = count_segment(s3, '=', d.files_conflict);
    let id = d.change_id@;
    let k: int = if id.len() >= 1 { 1 } else { 0 };
    s4.push((id.take(k), Some(jj_magenta()))).push((id.skip(k) + seq![' '], Some(jj_gray()))).push(
        (seq!['|', ' ', ' '], Some(jj_dark())),
    ).push((first_line(d.description@), Some(jj_green())))
}

fn push_count(segs: &mut Vec<Segment>, mark: char, n: u32, color: Color)
    requires
        color == jj_purple(),
    ensures
        segs_view(final(segs)@) == count_segment(segs_view(old(segs)@), mark, n),
{
    if n > 0 {
        let mut t = String::new();
        string_push(&mut t, mark);
        push_decimal(&mut t, n as u64);
        string_push(&mut t, ' ');
        assert(t@ =~= seq![mark] + decimal(n as nat) + seq![' ']);
        push_segment(segs, t, color);
    }
}

/// Renders the jj data; nothing outside a repository. The change id is cut
/// after its first byte, so its first character must be ASCII.
pub fn render_jj(data: &Option<JJData>) -> (segs: Vec<Segment>)
    requires
        data matches Some(d) ==> d.change_id@.len() == 0 || d.change_id@[0] < '\u{80}',
    ensures
        segs_view(segs@) == match data {
            Some(d) => jj_segments(*d),
            None => Seq::empty(),
        },
{
    let mut segs: Vec<Segment> = Vec::new();
    assert(segs_view(segs@) =~= Seq::<(Seq<char>, Option<Color>)>::empty());
    let d = match data {
        Some(d) => d,
        None => {
            return segs;
        },
    };
    let c_blue = Color { r: 0x5f, g: 0xaf, b: 0xff };
    let c_purple = Color { r: 0xaf, g: 0x87, b: 0xd7 };
    let c_magenta = Color { r: 0xd7, g: 0x87, b: 0xd7 };
    let c_gray = Color { r: 0xbc, g: 0xbc, b: 0xbc };
    let c_dark = Color { r: 0x44, g: 0x44, b: 0x44 };
    let c_green = Color { r: 0x5f, g: 0xaf, b: 0x5f };
    let mut t = String::new();
    string_push(&mut t, 'j');
    string_push(&mut t, 'j');
    string_push(&mut t, ' ');
    string_push(&mut t, ' ');
    assert(t@ =~= seq!['j', 'j', ' ', ' ']);
    push_segment(&mut segs, t, c_blue);
    assert(segs_view(segs@) =~= seq![(seq!['j', 'j', ' ', ' '], Some(jj_blue()))]);
    push_count(&mut segs, '!', d.files_modified, c_purple);
    push_count(&mut segs, '+', d.files_added, c_purple);
    push_count(&mut segs, '-', d.files_deleted, c_purple);
    push_count(&mut segs, '=', d.files_conflict, c_purple);
    let ghost s0 = seq![(seq!['j', 'j', ' ', ' '], Some(jj_blue()))];
    let ghost s4 = count_segment(count_segment(count_segment(count_segment(s0, '!', d.files_modified), '+', d.files_added), '-', d.files_deleted), '=', d.files_conflict);
    assert(segs_view(segs@) == s4);
    let id = chars_of(d.change_id.as_str());
    let k: usize = if id.len() >= 1 { 1 } else { 0 };
    let prefix = string_from_range(&id, 0, k);
    let mut rest = string_from_range(&id, k, id.len());
    string_push(&mut rest, ' ');
    assert(id@.subrange(0, k as int) =~= id@.take(k as int));
    assert(id@.subrange(k as int, id@.len() as int) =~= id@.skip(k as int));
    let ghost idv = d.change_id@;
    let ghost kk: int = if idv.len() >= 1 { 1 } else { 0 };
    assert(k == kk);
    assert(prefix@ =~= idv.take(kk));
    assert(rest@ =~= idv.skip(kk) + seq![' ']);
    let ghost s6 = s4.push((idv.take(kk), Some(jj_magenta()))).push((idv.skip(kk) + seq![' '], Some(jj_gray())));
    push_segment(&mut segs, prefix, c_magenta);
    push_segment(&mut segs, rest, c_gray);
    assert(segs_view(segs@) == s6);
    let mut t = String::new();
    string_push(&mut t, '|');
    string_push(&mut t, ' ');
    string_push(&mut t, ' ');
    assert(t@ =~= seq!['|', ' ', ' ']);
    push_segment(&mut segs, t, c_dark);
    let ls = lines(d.description.as_str());
    let first = if ls.len() > 0 {
        assert(ls@.map_values(|t: String| t@)[0] == ls@[0]@);
        ls[0].clone()
    } else {
        d.description.clone()
    };
    assert(first@ == first_line(d.description@));
    push_segment(&mut segs, first, c_green);
    assert(segs_view(segs@) == s4.push((idv.take(kk), Some(jj_magenta()))).push((idv.skip(kk) + seq![' '], Some(jj_gray()))).push(
        (seq!['|', ' ', ' '], Some(jj_dark())),
    ).push((first_line(d.description@), Some(jj_green()))));
    segs
}

/// The text of a count under its mark: the mark, the count and a space.
pub open spec fn mark_text(mark: char, n: nat) -> Seq<char> {
    seq![mark] + decimal(n) + seq![' ']
}

/// Whether a text is one of the data's counts under that count's own mark:
/// `!` modified, `+` added, `-` deleted, `=` conflicted.
pub open spec fn is_count_text(t: Seq<char>, d: JJData) -> bool {
    ||| d.files_modified > 0 && t == mark_text('!', d.files_modified as nat)
    ||| d.files_added > 0 && t == mark_text('+', d.files_added as nat)
    ||| d.files_deleted > 0 && t == mark_text('-', d.files_deleted as nat)
    ||| d.files_conflict > 0 && t == mark_text('=', d.files_conflict as nat)
}

proof fn lemma_count_segment_keeps(
    s: Seq<(Seq<char>, Option<Color>)>,
    mark: char,
    n: u32,
    d: JJData,
    y: (Seq<char>, Option<Color>),
)
    requires
        forall|i: int| 0 <= i < s.len() && (#[trigger] s[i]).1 == Some(jj_purple()) ==> is_count_text(s[i].0, d),
        n > 0 ==> is_count_text(mark_text(mark, n as nat), d),
    ensures
        forall|i: int|
            0 <= i < count_segment(s, mark, n).len() && (#[trigger] count_segment(s, mark, n)[i]).1 == Some(
                jj_purple(),
            ) ==> is_count_text(count_segment(s, mark, n)[i].0, d),
        s.contains(y) ==> count_segment(s, mark, n).contains(y),
        n > 0 ==> count_segment(s, mark, n).contains((mark_text(mark, n as nat), Some(jj_purple()))),
{
    let p = |e: (Seq<char>, Option<Color>)| e.1 == Some(jj_purple()) ==> is_count_text(e.0, d);
    assert(forall|i: int| 0 <= i < s.len() ==> p(#[trigger] s[i]));
    if n > 0 {
        let x = (seq![mark] + decimal(n as nat) + seq![' '], Some(jj_purple()));
        lemma_push_all(s, x, p);
        lemma_push_contains(s, x, y);
        lemma_push_contains(s, x, x);
        assert forall|i: int|
            0 <= i < count_segment(s, mark, n).len() && (#[trigger] count_segment(s, mark, n)[i]).1 == Some(
                jj_purple(),
            ) implies is_count_text(count_segment(s, mark, n)[i].0, d) by {
            assert(p(s.push(x)[i]));
        }
    }
}

/// Each file count is shown under its own mark, in purple, exactly when it
/// is not zero, and every purple segment is one of them.
pub proof fn law_jj_counts(d: JJData)
    ensures
        d.files_modified > 0 ==> jj_segments(d).contains((mark_text('!', d.files_modified as nat), Some(jj_purple()))),
        d.files_added > 0 ==> jj_segments(d).contains((mark_text('+', d.files_added as nat), Some(jj_purple()))),
        d.files_deleted > 0 ==> jj_segments(d).contains((mark_text('-', d.files_deleted as nat), Some(jj_purple()))),
        d.files_conflict > 0 ==> jj_segments(d).contains((mark_text('=', d.files_conflict as nat), Some(jj_purple()))),
        forall|i: int|
            0 <= i < jj_segments(d).len() && (#[trigger] jj_segments(d)[i]).1 == Some(jj_purple())
                ==> is_count_text(jj_segments(d)[i].0, d),
{
    let p = |e: (Seq<char>, Option<Color>)| e.1 == Some(jj_purple()) ==> is_count_text(e.0, d);
    let s0 = seq![(seq!['j', 'j', ' ', ' '], Some(jj_blue()))];
    let em = (mark_text('!', d.files_modified as nat), Some(jj_purple()));
    let ea = (mark_text('+', d.files_added as nat), Some(jj_purple()));
    let ed = (mark_text('-', d.files_deleted as nat), Some(jj_purple()));
    let ec = (mark_text('=', d.files_conflict as nat), Some(jj_purple()));
    assert(forall|i: int| 0 <= i < s0.len() && (#[trigger] s0[i]).1 == Some(jj_purple()) ==> is_count_text(s0[i].0, d));
    lemma_count_segment_keeps(s0, '!', d.files_modified, d, em);
    let s1 = count_segment(s0, '!', d.files_modified);
    lemma_count_segment_keeps(s1, '+', d.files_added, d, em);
    let s2 = count_segment(s1, '+', d.files_added);
    lemma_count_segment_keeps(s2, '-', d.files_deleted, d, em);
    lemma_count_segment_keeps(s2, '-', d.files_deleted, d, ea);
    let s3 = count_segment(s2, '-', d.files_deleted);
    lemma_count_segment_keeps(s3, '=', d.files_conflict, d, em);
    lemma_count_segment_keeps(s3, '=', d.files_conflict, d, ea);
    lemma_count_segment_keeps(s3, '=', d.files_conflict, d, ed);
    let s4 = count_segment(s3, '=', d.files_conflict);
    assert(forall|i: int| 0 <= i < s4.len() ==> p(#[trigger] s4[i]));
    let id = d.change_id@;
    let k: int = if id.len() >= 1 { 1 } else { 0 };
    let x1 = (id.take(k), Some(jj_magenta()));
    let x2 = (id.skip(k) + seq![' '], Some(jj_gray()));
    let x3 = (seq!['|', ' ', ' '], Some(jj_dark()));
    let x4 = (first_line(d.description@), Some(jj_green()));
    lemma_push_all(s4, x1, p);
    let t1 = s4.push(x1);
    lemma_push_all(t1, x2, p);
    let t2 = t1.push(x2);
    lemma_push_all(t2, x3, p);
    let t3 = t2.push(x3);
    lemma_push_all(t3, x4, p);
    let t4 = t3.push(x4);
    assert(t4 == jj_segments(d));
    let es = seq![em, ea, ed, ec];
    assert forall|j: int| 0 <= j < 4 && s4.contains(#[trigger] es[j]) implies t4.contains(es[j]) by {
        lemma_push_contains(s4, x1, es[j]);
        lemma_push_contains(t1, x2, es[j]);
        lemma_push_contains(t2, x3, es[j]);
        lemma_push_contains(t3, x4, es[j]);
    }
    assert(es[0] == em && es[1] == ea && es[2] == ed && es[3] == ec);
    assert forall|i: int|
        0 <= i < jj_segments(d).len() && (#[trigger] jj_segments(d)[i]).1 == Some(jj_purple())
            implies is_count_text(jj_segments(d)[i].0, d) by {
        assert(p(t4[i]));
    }
}

} // verus!
