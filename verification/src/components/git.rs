//! The git component.
use vstd::prelude::*;

use crate::color::{lemma_push_all, lemma_push_contains, push_segment, segs_view, Color, Segment};
use crate::text::{decimal, push_decimal, push_str, string_push};
use crate::text::{
    chars_of, contains_sub, first_chars, lines, lines_of, parse_u32, parse_u32_or_zero, parse_unsigned,
    split_by, split_pat, split_whitespace, starts_with, str_contains, str_eq, string_from_chars, trim, trim_chars,
    strip_prefix, take_chars, u32_or_zero, words,
};

verus! {

/// The special states a repository can be in, as marker files and
/// directories in its git directory show them.
pub struct RepoMarkers {
    pub rebase_merge_dir: bool,
    pub rebase_apply_dir: bool,
    pub merge_head_file: bool,
    pub cherry_pick_head_file: bool,
    pub bisect_log_file: bool,
    pub revert_head_file: bool,
}

/// The state that the markers show, the first that applies.
pub open spec fn repo_state_of(m: RepoMarkers) -> Option<Seq<char>> {
    if m.rebase_merge_dir || m.rebase_apply_dir {
        Some("REBASING"@)
    } else if m.merge_head_file {
        Some("MERGING"@)
    } else if m.cherry_pick_head_file {
        Some("CHERRY-PICKING"@)
    } else if m.bisect_log_file {
        Some("BISECTING"@)
    } else if m.revert_head_file {
        Some("REVERTING"@)
    } else {
        None
    }
}

/// The special state of the repository.
pub fn detect_repo_state(m: &RepoMarkers) -> (r: Option<String>)
    ensures
        r matches Some(s) ==> repo_state_of(*m) == Some(s@),
        r is None ==> repo_state_of(*m) is None,
{
    if m.rebase_merge_dir || m.rebase_apply_dir {
        Some("REBASING".to_string())
    } else if m.merge_head_file {
        Some("MERGING".to_string())
    } else if m.cherry_pick_head_file {
        Some("CHERRY-PICKING".to_string())
    } else if m.bisect_log_file {
        Some("BISECTING".to_string())
    } else if m.revert_head_file {
        Some("REVERTING".to_string())
    } else {
        None
    }
}


/// The values read from `git status --porcelain=v2 --branch`:
/// (branch, commit hash, ahead, behind).
pub type BranchStatusView = (Seq<char>, Seq<char>, u32, u32);

/// One `+n` / `-n` token of a `# branch.ab` line.
pub open spec fn ab_step(st: (u32, u32), token: Seq<char>) -> (u32, u32) {
    if token.len() > 0 && token[0] == '+' {
        (u32_or_zero(token.drop_first()), st.1)
    } else if token.len() > 0 && token[0] == '-' {
        (st.0, u32_or_zero(token.drop_first()))
    } else {
        st
    }
}

pub open spec fn ab_fold(st: (u32, u32), tokens: Seq<Seq<char>>) -> (u32, u32)
    decreases tokens.len(),
{
    if tokens.len() == 0 {
        st
    } else {
        ab_step(ab_fold(st, tokens.drop_last()), tokens.last())
    }
}

/// One header line of the status output.
pub open spec fn status_step(st: BranchStatusView, line: Seq<char>) -> BranchStatusView {
    if starts_with(line, "# branch.oid "@) {
        let rest = line.skip("# branch.oid "@.len() as int);
        (st.0, if rest == "(initial)"@ {
            Seq::empty()
        } else {
            take_chars(rest, 7)
        }, st.2, st.3)
    } else if starts_with(line, "# branch.head "@) {
        (line.skip("# branch.head "@.len() as int), st.1, st.2, st.3)
    } else if starts_with(line, "# branch.ab "@) {
        let ab = ab_fold((st.2, st.3), words(line.skip("# branch.ab "@.len() as int)));
        (st.0, st.1, ab.0, ab.1)
    } else {
        st
    }
}

pub open spec fn status_fold(lines: Seq<Seq<char>>) -> BranchStatusView
    decreases lines.len(),
{
    if lines.len() == 0 {
        (Seq::empty(), Seq::empty(), 0, 0)
    } else {
        status_step(status_fold(lines.drop_last()), lines.last())
    }
}

/// Reads the branch, the short commit hash and the ahead/behind counts from
/// the header lines of `git status --porcelain=v2 --branch`; later lines win.
pub fn parse_branch_status(output: &str) -> (r: (String, String, u32, u32))
    ensures
        (r.0@, r.1@, r.2, r.3) == status_fold(lines_of(output@)),
{
    let ls = lines(output);
    let ghost lv = ls@.map_values(|t: String| t@);
    let mut branch = String::new();
    let mut commit_hash = String::new();
    let mut ahead: u32 = 0;
    let mut behind: u32 = 0;
    let mut i: usize = 0;
    assert(lv.subrange(0, 0) =~= Seq::<Seq<char>>::empty());
    while i < ls.len()
        invariant
            i <= ls@.len(),
            lv == ls@.map_values(|t: String| t@),
            lv == lines_of(output@),
            (branch@, commit_hash@, ahead, behind) == status_fold(lv.subrange(0, i as int)),
        decreases ls@.len() - i,
    {
        let line = ls[i].as_str();
        assert(lv.subrange(0, i + 1).drop_last() =~= lv.subrange(0, i as int));
        assert(lv.subrange(0, i + 1).last() == line@);
        if let Some(rest) = strip_prefix(line, "# branch.oid ") {
            commit_hash = if str_eq(rest.as_str(), "(initial)") {
                String::new()
            } else {
                first_chars(rest.as_str(), 7)
            };
        } else if let Some(rest) = strip_prefix(line, "# branch.head ") {
            branch = rest;
        } else if let Some(rest) = strip_prefix(line, "# branch.ab ") {
            let tokens = split_whitespace(rest.as_str());
            let ghost tv = tokens@.map_values(|t: String| t@);
            let ghost start = (ahead, behind);
            let mut k: usize = 0;
            assert(tv.subrange(0, 0) =~= Seq::<Seq<char>>::empty());
            while k < tokens.len()
                invariant
                    k <= tokens@.len(),
                    tv == tokens@.map_values(|t: String| t@),
                    (ahead, behind) == ab_fold(start, tv.subrange(0, k as int)),
                decreases tokens@.len() - k,
            {
                let token = tokens[k].as_str();
                assert(tv.subrange(0, k + 1).drop_last() =~= tv.subrange(0, k as int));
                assert(tv.subrange(0, k + 1).last() == token@);
                proof {
                    reveal_strlit("+");
                    reveal_strlit("-");
                }
                if let Some(n) = strip_prefix(token, "+") {
                    assert(token@.skip(1) =~= token@.drop_first());
                    assert(token@.subrange(0, 1)[0] == token@[0]);
                    ahead = parse_u32_or_zero(n.as_str());
                } else if let Some(n) = strip_prefix(token, "-") {
                    assert(token@.skip(1) =~= token@.drop_first());
                    assert(token@.subrange(0, 1)[0] == token@[0]);
                    assert(!(token@.len() > 0 && token@[0] == '+')) by {
                        if token@.len() > 0 && token@[0] == '+' {
                            assert(token@.subrange(0, 1) =~= "+"@);
                        }
                    }
                    behind = parse_u32_or_zero(n.as_str());
                } else {
                    assert(!(token@.len() > 0 && token@[0] == '+')) by {
                        if token@.len() > 0 && token@[0] == '+' {
                            assert(token@.subrange(0, 1) =~= "+"@);
                        }
                    }
                    assert(!(token@.len() > 0 && token@[0] == '-')) by {
                        if token@.len() > 0 && token@[0] == '-' {
                            assert(token@.subrange(0, 1) =~= "-"@);
                        }
                    }
                }
                k = k + 1;
            }
            assert(tv.subrange(0, tv.len() as int) =~= tv);
        }
        i = i + 1;
    }
    assert(lv.subrange(0, lv.len() as int) =~= lv);
    (branch, commit_hash, ahead, behind)
}


/// One `, `-separated part of `git diff --shortstat`: its leading number
/// goes to the count that the part names.
pub open spec fn shortstat_step(st: (u32, u32, u32), part: Seq<char>) -> (u32, u32, u32) {
    let ws = words(part);
    if ws.len() == 0 {
        st
    } else {
        match parse_unsigned(ws[0], u32::MAX as nat) {
            None => st,
            Some(n) => if contains_sub(part, "file"@) {
                (n as u32, st.1, st.2)
            } else if contains_sub(part, "insertion"@) {
                (st.0, n as u32, st.2)
            } else if contains_sub(part, "deletion"@) {
                (st.0, st.1, n as u32)
            } else {
                st
            },
        }
    }
}

pub open spec fn shortstat_fold(parts: Seq<Seq<char>>) -> (u32, u32, u32)
    decreases parts.len(),
{
    if parts.len() == 0 {
        (0, 0, 0)
    } else {
        shortstat_step(shortstat_fold(parts.drop_last()), parts.last())
    }
}

/// The counts of `git diff --shortstat`: (files changed, insertions,
/// deletions).
pub open spec fn shortstat_of(output: Seq<char>) -> (u32, u32, u32) {
    shortstat_fold(split_pat(trim(output), ", "@))
}

/// Reads (files changed, insertions, deletions) from `git diff --shortstat`.
pub fn parse_shortstat(output: &str) -> (r: (u32, u32, u32))
    ensures
        r == shortstat_of(output@),
{
    let v = chars_of(output);
    let tv = trim_chars(&v);
    let trimmed = string_from_chars(tv.as_slice());
    proof {
        reveal_strlit(", ");
    }
    let parts = split_by(trimmed.as_str(), ", ");
    let ghost pv = parts@.map_values(|t: String| t@);
    let mut files_changed: u32 = 0;
    let mut insertions: u32 = 0;
    let mut deletions: u32 = 0;
    let mut i: usize = 0;
    assert(pv.subrange(0, 0) =~= Seq::<Seq<char>>::empty());
    while i < parts.len()
        invariant
            i <= parts@.len(),
            pv == parts@.map_values(|t: String| t@),
            pv == split_pat(trim(output@), ", "@),
            (files_changed, insertions, deletions) == shortstat_fold(pv.subrange(0, i as int)),
        decreases parts@.len() - i,
    {
        let part = parts[i].as_str();
        assert(pv.subrange(0, i + 1).drop_last() =~= pv.subrange(0, i as int));
        assert(pv.subrange(0, i + 1).last() == part@);
        let ws = split_whitespace(part);
        if ws.len() > 0 {
            assert(ws@.map_values(|t: String| t@)[0] == ws@[0]@);
            match parse_u32(ws[0].as_str()) {
                None => {},
                Some(n) => {
                    if str_contains(part, "file") {
                        files_changed = n;
                    } else if str_contains(part, "insertion") {
                        insertions = n;
                    } else if str_contains(part, "deletion") {
                        deletions = n;
                    }
                },
            }
        }
        i = i + 1;
    }
    assert(pv.subrange(0, pv.len() as int) =~= pv);
    (files_changed, insertions, deletions)
}

/// What the git component shows.
pub struct GitData {
    pub branch: String,
    pub commit_hash: String,
    /// "REBASING", "MERGING", "CHERRY-PICKING", "BISECTING" or "REVERTING".
    pub repo_state: Option<String>,
    pub ahead: u32,
    pub behind: u32,
    pub insertions: u32,
    pub deletions: u32,
    pub files_changed: u32,
}

/// The branch to show: the commit hash when there is no branch name or the
/// head is detached.
pub open spec fn shown_branch(st: BranchStatusView) -> Seq<char> {
    if st.0.len() == 0 || st.0 == "(detached)"@ {
        st.1
    } else {
        st.0
    }
}

/// The git data from what git reported: the repository's markers, the status
/// output, and the shortstat output when that command succeeded.
pub open spec fn git_data_spec(
    markers: RepoMarkers,
    status_text: Seq<char>,
    shortstat: Option<Seq<char>>,
    d: GitData,
) -> bool {
    let st = status_fold(lines_of(status_text));
    let counts = match shortstat {
        Some(t) => shortstat_of(t),
        None => (0u32, 0u32, 0u32),
    };
    &&& d.branch@ == shown_branch(st)
    &&& d.commit_hash@ == st.1
    &&& (match d.repo_state {
        Some(s) => repo_state_of(markers) == Some(s@),
        None => repo_state_of(markers) is None,
    })
    &&& d.ahead == st.2
    &&& d.behind == st.3
    &&& d.files_changed == counts.0
    &&& d.insertions == counts.1
    &&& d.deletions == counts.2
}

/// Builds the git data from the outputs of the git commands.
pub fn git_data_from_outputs(markers: &RepoMarkers, status_text: &str, shortstat: Option<&str>) -> (d: GitData)
    ensures
        git_data_spec(*markers, status_text@, match shortstat {
            Some(t) => Some(t@),
            None => None,
        }, d),
{
    let repo_state = detect_repo_state(markers);
    let (mut branch, commit_hash, ahead, behind) = parse_branch_status(status_text);
    if branch.as_str().is_empty() || str_eq(branch.as_str(), "(detached)") {
        branch = commit_hash.clone();
    }
    let (files_changed, insertions, deletions) = match shortstat {
        Some(t) => parse_shortstat(t),
        None => (0, 0, 0),
    };
    GitData { branch, commit_hash, repo_state, ahead, behind, insertions, deletions, files_changed }
}

/// The git data, or nothing when there is no repository or `git status`
/// failed. `git_dir` holds the markers when a git directory was found.
pub fn get_git_data(
    git_dir: Option<&RepoMarkers>,
    status_text: Option<&str>,
    shortstat: Option<&str>,
) -> (d: Option<GitData>)
    ensures
        d is Some <==> git_dir is Some && status_text is Some,
        d matches Some(data) ==> git_data_spec(*git_dir.unwrap(), status_text.unwrap()@, match shortstat {
            Some(t) => Some(t@),
            None => None,
        }, data),
{
    match (git_dir, status_text) {
        (Some(m), Some(t)) => Some(git_data_from_outputs(m, t, shortstat)),
        _ => None,
    }
}


pub open spec fn blue() -> Color {
    Color { r: 0x5f, g: 0xaf, b: 0xff }
}

pub open spec fn purple() -> Color {
    Color { r: 0xaf, g: 0x87, b: 0xd7 }
}

pub open spec fn gray() -> Color {
    Color { r: 0xbc, g: 0xbc, b: 0xbc }
}

pub open spec fn dark() -> Color {
    Color { r: 0x44, g: 0x44, b: 0x44 }
}

pub open spec fn green() -> Color {
    Color { r: 0x5f, g: 0xaf, b: 0x5f }
}

pub open spec fn red() -> Color {
    Color { r: 0xff, g: 0x5f, b: 0x5f }
}

/// The segments of the git component: the git icon, the special state, the
/// branch, the commit hash, ahead and behind counts, and the diff counts when
/// files changed.
pub open spec fn git_segments(d: GitData) -> Seq<(Seq<char>, Option<Color>)> {
    let s0 = seq![(seq!['\u{e702}', ' '], Some(blue()))];
    let s1 = match d.repo_state {
        Some(st) => s0.push((st@ + seq![' '], Some(red()))),
        None => s0,
    };
    let s2 = s1.push((seq!['\u{e725}', ' '] + d.branch@, Some(green())));
    let s3 = if d.commit_hash@.len() > 0 {
        s2.push((seq![' '] + d.commit_hash@, Some(gray())))
    } else {
        s2
    };
    let s4 = if d.ahead > 0 {
        s3.push((seq![' ', '\u{2191}'] + decimal(d.ahead as nat), Some(purple())))
    } else {
        s3
    };
    let s5 = if d.behind > 0 {
        s4.push((seq![' ', '\u{2193}'] + decimal(d.behind as nat), Some(purple())))
    } else {
        s4
    };
    if d.files_changed > 0 {
        let s6 = s5.push((seq![' ', '|', ' ', ' '], Some(dark())));
        let s7 = if d.insertions > 0 {
            s6.push((seq!['+'] + decimal(d.insertions as nat) + seq![' '], Some(green())))
        } else {
            s6
        };
        if d.deletions > 0 {
            s7.push((seq!['-'] + decimal(d.deletions as nat), Some(red())))
        } else {
            s7
        }
    } else {
        s5
    }
}

/// Renders the git data; nothing without a repository.
pub fn render_git(data: &Option<GitData>) -> (segs: Vec<Segment>)
    ensures
        segs_view(segs@) == match data {
            Some(d) => git_segments(*d),
            None => Seq::empty(),
        },
{
    let mut segs: Vec<Segment> = Vec::new();
    let d = match data {
        Some(d) => d,
        None => {
            assert(segs_view(segs@) =~= Seq::<(Seq<char>, Option<Color>)>::empty());
            return segs;
        },
    };
    let c_blue = Color { r: 0x5f, g: 0xaf, b: 0xff };
    let c_purple = Color { r: 0xaf, g: 0x87, b: 0xd7 };
    let c_gray = Color { r: 0xbc, g: 0xbc, b: 0xbc };
    let c_dark = Color { r: 0x44, g: 0x44, b: 0x44 };
    let c_green = Color { r: 0x5f, g: 0xaf, b: 0x5f };
    let c_red = Color { r: 0xff, g: 0x5f, b: 0x5f };
    let mut t = String::new();
    string_push(&mut t, '\u{e702}');
    string_push(&mut t, ' ');
    assert(segs_view(segs@) =~= Seq::<(Seq<char>, Option<Color>)>::empty());
    assert(t@ =~= seq!['\u{e702}', ' ']);
    push_segment(&mut segs, t, c_blue);
    let ghost s0 = seq![(seq!['\u{e702}', ' '], Some(blue()))];
    assert(segs_view(segs@) =~= s0);
    if let Some(state) = &d.repo_state {
        let mut t = state.clone();
        string_push(&mut t, ' ');
        assert(t@ == d.repo_state->0@ + seq![' ']);
        push_segment(&mut segs, t, c_red);
    }
    let ghost s1 = if d.repo_state is Some {
        s0.push((d.repo_state->0@ + seq![' '], Some(red())))
    } else {
        s0
    };
    assert(segs_view(segs@) == s1);
    let mut t = String::new();
    string_push(&mut t, '\u{e725}');
    string_push(&mut t, ' ');
    push_str(&mut t, d.branch.as_str());
    assert(t@ =~= seq!['\u{e725}', ' '] + d.branch@);
    push_segment(&mut segs, t, c_green);
    if !d.commit_hash.as_str().is_empty() {
        let mut t = String::new();
        string_push(&mut t, ' ');
        push_str(&mut t, d.commit_hash.as_str());
        assert(t@ =~= seq![' '] + d.commit_hash@);
        push_segment(&mut segs, t, c_gray);
    }
    let ghost s2 = s1.push((seq!['\u{e725}', ' '] + d.branch@, Some(green())));
    let ghost s3 = if d.commit_hash@.len() > 0 {
        s2.push((seq![' '] + d.commit_hash@, Some(gray())))
    } else {
        s2
    };
    assert(segs_view(segs@) == s3);
    if d.ahead > 0 {
        let mut t = String::new();
        string_push(&mut t, ' ');
        string_push(&mut t, '\u{2191}');
        push_decimal(&mut t, d.ahead as u64);
        assert(t@ =~= seq![' ', '\u{2191}'] + decimal(d.ahead as nat));
        push_segment(&mut segs, t, c_purple);
    }
    if d.behind > 0 {
        let mut t = String::new();
        string_push(&mut t, ' ');
        string_push(&mut t, '\u{2193}');
        push_decimal(&mut t, d.behind as u64);
        assert(t@ =~= seq![' ', '\u{2193}'] + decimal(d.behind as nat));
        push_segment(&mut segs, t, c_purple);
    }
    let ghost s4 = if d.ahead > 0 {
        s3.push((seq![' ', '\u{2191}'] + decimal(d.ahead as nat), Some(purple())))
    } else {
        s3
    };
    let ghost s5 = if d.behind > 0 {
        s4.push((seq![' ', '\u{2193}'] + decimal(d.behind as nat), Some(purple())))
    } else {
        s4
    };
    assert(segs_view(segs@) == s5);
    if d.files_changed > 0 {
        let mut t = String::new();
        string_push(&mut t, ' ');
        string_push(&mut t, '|');
        string_push(&mut t, ' ');
        string_push(&mut t, ' ');
        assert(t@ =~= seq![' ', '|', ' ', ' ']);
        push_segment(&mut segs, t, c_dark);
        if d.insertions > 0 {
            let mut t = String::new();
            string_push(&mut t, '+');
            push_decimal(&mut t, d.insertions as u64);
            string_push(&mut t, ' ');
            assert(t@ =~= seq!['+'] + decimal(d.insertions as nat) + seq![' ']);
            push_segment(&mut segs, t, c_green);
        }
        if d.deletions > 0 {
            let mut t = String::new();
            string_push(&mut t, '-');
            push_decimal(&mut t, d.deletions as u64);
            assert(t@ =~= seq!['-'] + decimal(d.deletions as nat));
            push_segment(&mut segs, t, c_red);
        }
    }
    segs
}

/// The text of the ahead count: ` ↑` and the count.
pub open spec fn ahead_text(n: nat) -> Seq<char> {
    seq![' ', '\u{2191}'] + decimal(n)
}

/// The text of the behind count: ` ↓` and the count.
pub open spec fn behind_text(n: nat) -> Seq<char> {
    seq![' ', '\u{2193}'] + decimal(n)
}

/// The ahead and behind counts are shown each on its own, in purple: the
/// behind count exactly when it is not zero, whatever the ahead count, and
/// the other way round; no other segment is purple.
pub proof fn law_git_ahead_behind(d: GitData)
    ensures
        d.ahead > 0 ==> git_segments(d).contains((ahead_text(d.ahead as nat), Some(purple()))),
        d.behind > 0 ==> git_segments(d).contains((behind_text(d.behind as nat), Some(purple()))),
        forall|i: int|
            0 <= i < git_segments(d).len() && (#[trigger] git_segments(d)[i]).1 == Some(purple()) ==> (
            d.ahead > 0 && git_segments(d)[i].0 == ahead_text(d.ahead as nat)) || (d.behind > 0
                && git_segments(d)[i].0 == behind_text(d.behind as nat)),
{
    let p = |e: (Seq<char>, Option<Color>)|
        e.1 == Some(purple()) ==> (d.ahead > 0 && e.0 == ahead_text(d.ahead as nat)) || (d.behind > 0
            && e.0 == behind_text(d.behind as nat));
    let s0 = seq![(seq!['\u{e702}', ' '], Some(blue()))];
    assert(forall|i: int| 0 <= i < s0.len() ==> p(#[trigger] s0[i]));
    let s1 = match d.repo_state {
        Some(st) => {
            lemma_push_all(s0, (st@ + seq![' '], Some(red())), p);
            s0.push((st@ + seq![' '], Some(red())))
        },
        None => s0,
    };
    let b = (seq!['\u{e725}', ' '] + d.branch@, Some(green()));
    lemma_push_all(s1, b, p);
    let s2 = s1.push(b);
    let h = (seq![' '] + d.commit_hash@, Some(gray()));
    let s3 = if d.commit_hash@.len() > 0 {
        lemma_push_all(s2, h, p);
        s2.push(h)
    } else {
        s2
    };
    let a = (seq![' ', '\u{2191}'] + decimal(d.ahead as nat), Some(purple()));
    let s4 = if d.ahead > 0 {
        lemma_push_all(s3, a, p);
        lemma_push_contains(s3, a, a);
        s3.push(a)
    } else {
        s3
    };
    let w = (seq![' ', '\u{2193}'] + decimal(d.behind as nat), Some(purple()));
    let s5 = if d.behind > 0 {
        lemma_push_all(s4, w, p);
        lemma_push_contains(s4, w, w);
        if d.ahead > 0 {
            lemma_push_contains(s4, w, a);
        }
        s4.push(w)
    } else {
        s4
    };
    let k = (seq![' ', '|', ' ', ' '], Some(dark()));
    let ins = (seq!['+'] + decimal(d.insertions as nat) + seq![' '], Some(green()));
    let del = (seq!['-'] + decimal(d.deletions as nat), Some(red()));
    let full = if d.files_changed > 0 {
        lemma_push_all(s5, k, p);
        lemma_push_contains(s5, k, a);
        lemma_push_contains(s5, k, w);
        let s6 = s5.push(k);
        let s7 = if d.insertions > 0 {
            lemma_push_all(s6, ins, p);
            lemma_push_contains(s6, ins, a);
            lemma_push_contains(s6, ins, w);
            s6.push(ins)
        } else {
            s6
        };
        if d.deletions > 0 {
            lemma_push_all(s7, del, p);
            lemma_push_contains(s7, del, a);
            lemma_push_contains(s7, del, w);
            s7.push(del)
        } else {
            s7
        }
    } else {
        s5
    };
    assert(full == git_segments(d));
    assert forall|i: int|
        0 <= i < git_segments(d).len() && (#[trigger] git_segments(d)[i]).1 == Some(purple()) implies (
        d.ahead > 0 && git_segments(d)[i].0 == ahead_text(d.ahead as nat)) || (d.behind > 0
            && git_segments(d)[i].0 == behind_text(d.behind as nat)) by {
        assert(p(full[i]));
    }
}

} // verus!
