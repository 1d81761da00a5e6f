//! What components share: the context they render in, values that may
//! depend on it, and the file patterns that switch a component on.
use vstd::prelude::*;

use crate::text::{chars_of, starts_with};

verus! {

/// What a prompt is rendered for.
pub struct Context {
    /// The working directory, as text.
    pub cwd: String,
    pub term_width: usize,
    pub last_status: i32,
    pub bind_mode: String,
    pub is_transient: bool,
}

/// A value that is either fixed or computed from the context.
pub enum Dynamic<T, F> {
    Static(T),
    Dynamic(F),
}

impl<T: Clone, F: Fn(&Context) -> T> Dynamic<T, F> {
    /// The value for this context: a copy of the fixed value, or what the
    /// function computes.
    pub fn resolve(&self, ctx: &Context) -> (r: T)
        requires
            self matches Dynamic::Dynamic(f) ==> call_requires(f, (ctx,)),
        ensures
            match self {
                Dynamic::Static(v) => cloned(*v, r),
                Dynamic::Dynamic(f) => call_ensures(f, (ctx,), r),
            },
    {
        match self {
            Dynamic::Static(v) => v.clone(),
            Dynamic::Dynamic(f) => f(ctx),
        }
    }
}

impl<T, F: Fn(&Context) -> T> Dynamic<T, F> {
    /// A value computed from the context by `f`.
    pub fn new_dyn(f: F) -> (d: Self)
        ensures
            d == Dynamic::<T, F>::Dynamic(f),
    {
        Dynamic::Dynamic(f)
    }

    /// A fixed value.
    pub fn from_value(v: T) -> (d: Self)
        ensures
            d == Dynamic::<T, F>::Static(v),
    {
        Dynamic::Static(v)
    }
}

impl<T, F> From<T> for Dynamic<T, F> {
    fn from(v: T) -> (d: Self) {
        Dynamic::Static(v)
    }
}

impl<T, F> vstd::std_specs::convert::FromSpecImpl<T> for Dynamic<T, F> {
    open spec fn obeys_from_spec() -> bool {
        true
    }

    open spec fn from_spec(v: T) -> Self {
        Dynamic::Static(v)
    }
}

/// An entry of a directory listing: its file name, and whether it is a file
/// or a directory.
pub struct DirEntry {
    pub name: String,
    pub is_file: bool,
    pub is_dir: bool,
}

/// Index of the last `c` before index `j`, or -1.
pub open spec fn last_index_of(s: Seq<char>, c: char, j: int) -> int
    decreases j,
{
    if j <= 0 || j > s.len() {
        -1
    } else if s[j - 1] == c {
        j - 1
    } else {
        last_index_of(s, c, j - 1)
    }
}

/// `Path::extension` of a file name: what follows the last dot, unless there
/// is no dot, the only dot leads the name, or the name is `..`.
pub open spec fn extension(name: Seq<char>) -> Option<Seq<char>> {
    let k = last_index_of(name, '.', name.len() as int);
    if name == seq!['.', '.'] || k <= 0 {
        None
    } else {
        Some(name.skip(k + 1))
    }
}

/// Whether an entry matches a pattern: `*.ext` matches files with that
/// extension, `name/` matches directories with that name, anything else
/// matches entries with exactly that name.
pub open spec fn entry_matches(e: DirEntry, pattern: Seq<char>) -> bool {
    if starts_with(pattern, seq!['*', '.']) {
        e.is_file && extension(e.name@) == Some(pattern.skip(2))
    } else if pattern.len() > 0 && pattern.last() == '/' {
        e.is_dir && e.name@ == pattern.drop_last()
    } else {
        e.name@ == pattern
    }
}

pub open spec fn dir_matches(entries: Seq<DirEntry>, pattern: Seq<char>) -> bool {
    exists|i: int| 0 <= i < entries.len() && entry_matches(#[trigger] entries[i], pattern)
}

pub open spec fn any_matches(entries: Seq<DirEntry>, patterns: Seq<String>) -> bool {
    exists|j: int| 0 <= j < patterns.len() && dir_matches(entries, (#[trigger] patterns[j])@)
}

proof fn lemma_last_index_of_bounds(s: Seq<char>, c: char, j: int)
    requires
        0 <= j <= s.len(),
    ensures
        -1 <= last_index_of(s, c, j) < j,
        last_index_of(s, c, j) >= 0 ==> s[last_index_of(s, c, j)] == c,
    decreases j,
{
    if j > 0 && s[j - 1] != c {
        lemma_last_index_of_bounds(s, c, j - 1);
    }
}

fn seq_eq(a: &Vec<char>, b: &Vec<char>) -> (r: bool)
    ensures
        r == (a@ == b@),
{
    if a.len() != b.len() {
        return false;
    }
    let mut i: usize = 0;
    while i < a.len()
        invariant
            a@.len() == b@.len(),
            i <= a@.len(),
            forall|j: int| 0 <= j < i ==> a@[j] == b@[j],
        decreases a@.len() - i,
    {
        if a[i] != b[i] {
            return false;
        }
        i = i + 1;
    }
    assert(a@ =~= b@);
    true
}

/// `Path::extension` of a file name.
fn extension_of(name: &Vec<char>) -> (r: Option<Vec<char>>)
    ensures
        r matches Some(v) ==> extension(name@) == Some(v@),
        r is None ==> extension(name@) is None,
{
    let n = name.len();
    let mut j: usize = n;
    while j > 0 && name[j - 1] != '.'
        invariant
            j <= n == name@.len(),
            last_index_of(name@, '.', n as int) == last_index_of(name@, '.', j as int),
        decreases j,
    {
        j = j - 1;
    }
    let is_dotdot = n == 2 && name[0] == '.' && name[1] == '.';
    assert(is_dotdot == (name@ == seq!['.', '.'])) by {
        if name@.len() == 2 && name@[0] == '.' && name@[1] == '.' {
            assert(name@ =~= seq!['.', '.']);
        }
    }
    if is_dotdot || j <= 1 {
        return None;
    }
    let mut ext: Vec<char> = Vec::new();
    let mut i = j;
    while i < n
        invariant
            j <= i <= n == name@.len(),
            ext@ == name@.subrange(j as int, i as int),
        decreases n - i,
    {
        ext.push(name[i]);
        assert(name@.subrange(j as int, i + 1) =~= name@.subrange(j as int, i as int).push(name@[i as int]));
        i = i + 1;
    }
    assert(name@.subrange(j as int, n as int) =~= name@.skip(j as int));
    Some(ext)
}

fn entry_matches_exec(e: &DirEntry, pattern: &Vec<char>) -> (r: bool)
    ensures
        r == entry_matches(*e, pattern@),
{
    let name = chars_of(e.name.as_str());
    let n = pattern.len();
    if n >= 2 && pattern[0] == '*' && pattern[1] == '.' {
        assert(starts_with(pattern@, seq!['*', '.'])) by {
            assert(pattern@.subrange(0, 2) =~= seq!['*', '.']);
        }
        if !e.is_file {
            return false;
        }
        let mut want: Vec<char> = Vec::new();
        let mut i: usize = 2;
        while i < n
            invariant
                2 <= i <= n == pattern@.len(),
                want@ == pattern@.subrange(2, i as int),
            decreases n - i,
        {
            want.push(pattern[i]);
            assert(pattern@.subrange(2, i + 1) =~= pattern@.subrange(2, i as int).push(pattern@[i as int]));
            i = i + 1;
        }
        assert(pattern@.subrange(2, n as int) =~= pattern@.skip(2));
        match extension_of(&name) {
            Some(ext) => seq_eq(&ext, &want),
            None => false,
        }
    } else {
        assert(!starts_with(pattern@, seq!['*', '.'])) by {
            if starts_with(pattern@, seq!['*', '.']) {
                assert(pattern@.subrange(0, 2)[0] == '*');
                assert(pattern@.subrange(0, 2)[1] == '.');
            }
        }
        if n > 0 && pattern[n - 1] == '/' {
            if !e.is_dir {
                return false;
            }
            let mut want: Vec<char> = Vec::new();
            let mut i: usize = 0;
            while i < n - 1
                invariant
                    i <= n - 1,
                    n == pattern@.len(),
                    n > 0,
                    want@ == pattern@.subrange(0, i as int),
                decreases n - 1 - i,
            {
                want.push(pattern[i]);
                assert(pattern@.subrange(0, i + 1) =~= pattern@.subrange(0, i as int).push(pattern@[i as int]));
                i = i + 1;
            }
            assert(pattern@.subrange(0, n - 1) =~= pattern@.drop_last());
            seq_eq(&name, &want)
        } else {
            seq_eq(&name, pattern)
        }
    }
}

/// Whether any entry of a directory listing matches the pattern.
pub fn dir_matches_pattern(entries: &[DirEntry], pattern: &str) -> (r: bool)
    ensures
        r == dir_matches(entries@, pattern@),
{
    let p = chars_of(pattern);
    let mut i: usize = 0;
    while i < entries.len()
        invariant
            p@ == pattern@,
            i <= entries@.len(),
            forall|j: int| 0 <= j < i ==> !entry_matches(#[trigger] entries@[j], pattern@),
        decreases entries@.len() - i,
    {
        if entry_matches_exec(&entries[i], &p) {
            return true;
        }
        i = i + 1;
    }
    false
}

/// Whether any of the patterns matches an entry of the directory listing.
pub fn any_pattern_matches(entries: &[DirEntry], patterns: &[String]) -> (r: bool)
    ensures
        r == any_matches(entries@, patterns@),
{
    let mut j: usize = 0;
    while j < patterns.len()
        invariant
            j <= patterns@.len(),
            forall|k: int| 0 <= k < j ==> !dir_matches(entries@, (#[trigger] patterns@[k])@),
        decreases patterns@.len() - j,
    {
        if dir_matches_pattern(entries, patterns[j].as_str()) {
            return true;
        }
        j = j + 1;
    }
    false
}

/// Whether a component shows: it must be enabled, and if it names file
/// patterns, one of them must match the working directory's listing.
pub fn component_enabled(enabled: bool, file_patterns: &[String], cwd_entries: &[DirEntry]) -> (r: bool)
    ensures
        r == (enabled && (file_patterns@.len() == 0 || any_matches(cwd_entries@, file_patterns@))),
{
    if !enabled {
        return false;
    }
    if file_patterns.len() == 0 {
        return true;
    }
    any_pattern_matches(cwd_entries, file_patterns)
}

} // verus!
