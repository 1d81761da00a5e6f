use vstd::prelude::*;

verus! {

/// `String::push` of std: afterwards the string holds its old characters
/// followed by `c`.
#[verifier::external_body]
pub(crate) fn string_push(s: &mut String, c: char)
    ensures
        final(s)@ == old(s)@.push(c),
{
    s.push(c);
}

/// The characters of a string slice, in order.
pub fn chars_of(s: &str) -> (v: Vec<char>)
    ensures
        v@ == s@,
{
    let n = s.unicode_len();
    let mut v: Vec<char> = Vec::new();
    let mut i: usize = 0;
    while i < n
        invariant
            n == s@.len(),
            i <= n,
            v@ == s@.subrange(0, i as int),
        decreases n - i,
    {
        v.push(s.get_char(i));
        i = i + 1;
    }
    v
}


/// The decimal digit for `d < 10`.
pub open spec fn digit_char(d: nat) -> char {
    if d == 0 {
        '0'
    } else if d == 1 {
        '1'
    } else if d == 2 {
        '2'
    } else if d == 3 {
        '3'
    } else if d == 4 {
        '4'
    } else if d == 5 {
        '5'
    } else if d == 6 {
        '6'
    } else if d == 7 {
        '7'
    } else if d == 8 {
        '8'
    } else {
        '9'
    }
}

/// The decimal notation of `n`, as `{}` prints an unsigned integer.
pub open spec fn decimal(n: nat) -> Seq<char>
    decreases n,
{
    if n < 10 {
        seq![digit_char(n)]
    } else {
        decimal(n / 10).push(digit_char(n % 10))
    }
}

fn digit_char_exec(d: u64) -> (c: char)
    requires
        d < 10,
    ensures
        c == digit_char(d as nat),
{
    if d == 0 {
        '0'
    } else if d == 1 {
        '1'
    } else if d == 2 {
        '2'
    } else if d == 3 {
        '3'
    } else if d == 4 {
        '4'
    } else if d == 5 {
        '5'
    } else if d == 6 {
        '6'
    } else if d == 7 {
        '7'
    } else if d == 8 {
        '8'
    } else {
        '9'
    }
}

/// Appends the decimal notation of `n`.
pub fn push_decimal(s: &mut String, n: u64)
    ensures
        final(s)@ == old(s)@ + decimal(n as nat),
    decreases n,
{
    if n >= 10 {
        push_decimal(s, n / 10);
    }
    string_push(s, digit_char_exec(n % 10));
    assert(n >= 10 ==> decimal(n as nat) == decimal((n / 10) as nat).push(digit_char((n % 10) as nat)));
}

/// Appends a string slice.
pub fn push_str(s: &mut String, t: &str)
    ensures
        final(s)@ == old(s)@ + t@,
{
    s.append(t);
}

/// A string holding `v[a..b]`.
pub fn string_from_range(v: &Vec<char>, a: usize, b: usize) -> (s: String)
    requires
        a <= b <= v@.len(),
    ensures
        s@ == v@.subrange(a as int, b as int),
{
    let mut s = String::new();
    let mut i: usize = a;
    while i < b
        invariant
            a <= i <= b <= v@.len(),
            s@ == v@.subrange(a as int, i as int),
        decreases b - i,
    {
        string_push(&mut s, v[i]);
        assert(v@.subrange(a as int, i + 1) == v@.subrange(a as int, i as int).push(v@[i as int]));
        i = i + 1;
    }
    s
}

/// A string holding the given characters.
pub fn string_from_chars(v: &[char]) -> (s: String)
    ensures
        s@ == v@,
{
    let mut s = String::new();
    let mut i: usize = 0;
    while i < v.len()
        invariant
            i <= v@.len(),
            s@ == v@.subrange(0, i as int),
        decreases v@.len() - i,
    {
        string_push(&mut s, v[i]);
        assert(v@.subrange(0, i + 1) == v@.subrange(0, i as int).push(v@[i as int]));
        i = i + 1;
    }
    assert(v@.subrange(0, v@.len() as int) == v@);
    s
}


/// `str::split(c)`: the pieces between the occurrences of `c`, as many as
/// there are occurrences plus one.
pub open spec fn split_char(s: Seq<char>, c: char) -> Seq<Seq<char>>
    decreases s.len(),
{
    if s.len() == 0 {
        seq![Seq::<char>::empty()]
    } else {
        let init = split_char(s.drop_last(), c);
        if s.last() == c {
            init.push(Seq::<char>::empty())
        } else {
            init.update(init.len() - 1, init.last().push(s.last()))
        }
    }
}

pub proof fn lemma_split_char_len(s: Seq<char>, c: char)
    ensures
        split_char(s, c).len() >= 1,
    decreases s.len(),
{
    if s.len() > 0 {
        lemma_split_char_len(s.drop_last(), c);
    }
}

/// The pieces joined again with `c` between them.
pub open spec fn join_with(pieces: Seq<Seq<char>>, sep: Seq<char>) -> Seq<char>
    decreases pieces.len(),
{
    if pieces.len() == 0 {
        Seq::empty()
    } else if pieces.len() == 1 {
        pieces[0]
    } else {
        join_with(pieces.drop_last(), sep) + sep + pieces.last()
    }
}

/// Splitting at `c` and joining with `c` gives the text back.
pub proof fn law_split_join(s: Seq<char>, c: char)
    ensures
        join_with(split_char(s, c), seq![c]) == s,
    decreases s.len(),
{
    if s.len() > 0 {
        let init = split_char(s.drop_last(), c);
        lemma_split_char_len(s.drop_last(), c);
        law_split_join(s.drop_last(), c);
        if s.last() == c {
            assert(split_char(s, c).drop_last() =~= init);
            assert(join_with(split_char(s, c), seq![c]) =~= s);
        } else {
            let p = split_char(s, c);
            if init.len() == 1 {
                assert(p[0] =~= init[0].push(s.last()));
                assert(s =~= s.drop_last().push(s.last()));
            } else {
                assert(p.drop_last() =~= init.drop_last());
                assert(join_with(p, seq![c]) =~= join_with(init, seq![c]).push(s.last()));
                assert(s =~= s.drop_last().push(s.last()));
            }
        }
    }
}

/// No piece holds the separator.
pub proof fn lemma_split_char_pieces(s: Seq<char>, c: char)
    ensures
        forall|i: int| 0 <= i < split_char(s, c).len() ==> !(#[trigger] split_char(s, c)[i]).contains(c),
    decreases s.len(),
{
    lemma_split_char_len(s, c);
    if s.len() > 0 {
        lemma_split_char_pieces(s.drop_last(), c);
        lemma_split_char_len(s.drop_last(), c);
        let init = split_char(s.drop_last(), c);
        let p = split_char(s, c);
        assert forall|i: int| 0 <= i < p.len() implies !(#[trigger] p[i]).contains(c) by {
            if i < init.len() - 1 {
                assert(p[i] == init[i]);
            } else if i == init.len() - 1 && s.last() != c {
                let q = init.last().push(s.last());
                assert(p[i] == q);
                if q.contains(c) {
                    let k = choose|k: int| 0 <= k < q.len() && q[k] == c;
                    assert(init.last()[k] == c);
                }
            } else if i == init.len() - 1 {
                assert(p[i] == init[i]);
            } else {
                assert(p[i] =~= Seq::<char>::empty());
            }
        }
    }
}


/// `s` starts with `p`.
pub open spec fn starts_with(s: Seq<char>, p: Seq<char>) -> bool {
    p.len() <= s.len() && s.subrange(0, p.len() as int) == p
}

/// `s` holds `p` somewhere.
pub open spec fn contains_sub(s: Seq<char>, p: Seq<char>) -> bool {
    exists|i: int| 0 <= i <= s.len() - p.len() && #[trigger] s.subrange(i, i + p.len()) == p
}

/// Whether `v[i..]` starts with `p`.
pub fn matches_at(v: &Vec<char>, i: usize, p: &Vec<char>) -> (r: bool)
    requires
        i <= v@.len(),
    ensures
        r == starts_with(v@.skip(i as int), p@),
{
    if p.len() > v.len() - i {
        return false;
    }
    let mut k: usize = 0;
    while k < p.len()
        invariant
            v@.len() <= usize::MAX,
            i <= v@.len(),
            i + p@.len() <= v@.len(),
            k <= p@.len(),
            forall|j: int| 0 <= j < k ==> v@[i + j] == p@[j],
        decreases p@.len() - k,
    {
        if v[i + k] != p[k] {
            assert(v@.skip(i as int).subrange(0, p@.len() as int)[k as int] != p@[k as int]);
            return false;
        }
        k = k + 1;
    }
    assert(v@.skip(i as int).subrange(0, p@.len() as int) =~= p@);
    true
}

/// `str::starts_with` with a string pattern.
pub fn str_starts_with(s: &str, p: &str) -> (r: bool)
    ensures
        r == starts_with(s@, p@),
{
    let v = chars_of(s);
    let pv = chars_of(p);
    assert(v@.skip(0) =~= v@);
    matches_at(&v, 0, &pv)
}

/// `str::strip_prefix` with a string pattern.
pub fn strip_prefix(s: &str, p: &str) -> (r: Option<String>)
    ensures
        r matches Some(t) ==> starts_with(s@, p@) && t@ == s@.skip(p@.len() as int),
        r is None ==> !starts_with(s@, p@),
{
    let v = chars_of(s);
    let pv = chars_of(p);
    assert(v@.skip(0) =~= v@);
    if matches_at(&v, 0, &pv) {
        let rest = string_from_range(&v, pv.len(), v.len());
        assert(v@.subrange(pv@.len() as int, v@.len() as int) =~= s@.skip(p@.len() as int));
        Some(rest)
    } else {
        None
    }
}

/// `str::contains` with a string pattern.
pub fn str_contains(s: &str, p: &str) -> (r: bool)
    ensures
        r == contains_sub(s@, p@),
{
    let v = chars_of(s);
    let pv = chars_of(p);
    if pv.len() > v.len() {
        return false;
    }
    if pv.len() == 0 {
        assert(s@.subrange(0, 0 + p@.len() as int) =~= p@);
        return true;
    }
    let mut i: usize = 0;
    let last = v.len() - pv.len();
    while i <= last
        invariant
            v@ == s@,
            pv@ == p@,
            pv@.len() <= v@.len(),
            pv@.len() >= 1,
            v@.len() <= usize::MAX,
            last == v@.len() - pv@.len(),
            i <= last + 1,
            forall|j: int| 0 <= j < i ==> #[trigger] v@.subrange(j, j + pv@.len()) != pv@,
        decreases last + 1 - i,
    {
        if matches_at(&v, i, &pv) {
            assert(v@.skip(i as int).subrange(0, pv@.len() as int) =~= v@.subrange(i as int, i + pv@.len()));
            return true;
        }
        assert(v@.skip(i as int).subrange(0, pv@.len() as int) =~= v@.subrange(i as int, i + pv@.len()));
        i = i + 1;
    }
    false
}

/// `char::is_whitespace`: the Unicode White_Space property.
pub open spec fn is_whitespace(c: char) -> bool {
    ('\t' <= c && c <= '\r') || c == ' ' || c == '\u{85}' || c == '\u{a0}' || c == '\u{1680}' || (
    '\u{2000}' <= c && c <= '\u{200a}') || c == '\u{2028}' || c == '\u{2029}' || c == '\u{202f}'
        || c == '\u{205f}' || c == '\u{3000}'
}

pub fn char_is_whitespace(c: char) -> (r: bool)
    ensures
        r == is_whitespace(c),
{
    ('\t' <= c && c <= '\r') || c == ' ' || c == '\u{85}' || c == '\u{a0}' || c == '\u{1680}' || (
    '\u{2000}' <= c && c <= '\u{200a}') || c == '\u{2028}' || c == '\u{2029}' || c == '\u{202f}'
        || c == '\u{205f}' || c == '\u{3000}'
}

/// Index of the first character from `i` on that is not whitespace.
pub open spec fn skip_ws(s: Seq<char>, i: int) -> int
    decreases s.len() - i,
{
    if i < s.len() && is_whitespace(s[i]) {
        skip_ws(s, i + 1)
    } else {
        i
    }
}

/// Index just after the last character before `j` that is not whitespace.
pub open spec fn skip_ws_back(s: Seq<char>, j: int) -> int
    decreases j,
{
    if j > 0 && j <= s.len() && is_whitespace(s[j - 1]) {
        skip_ws_back(s, j - 1)
    } else {
        j
    }
}

/// `str::trim`: the text without leading and trailing whitespace.
pub open spec fn trim(s: Seq<char>) -> Seq<char> {
    let a = skip_ws(s, 0);
    let b = skip_ws_back(s, s.len() as int);
    s.subrange(a, if b > a { b } else { a })
}

proof fn lemma_skip_ws_bounds(s: Seq<char>, i: int)
    requires
        0 <= i <= s.len(),
    ensures
        i <= skip_ws(s, i) <= s.len(),
    decreases s.len() - i,
{
    if i < s.len() && is_whitespace(s[i]) {
        lemma_skip_ws_bounds(s, i + 1);
    }
}

proof fn lemma_skip_ws_back_bounds(s: Seq<char>, j: int)
    requires
        0 <= j <= s.len(),
    ensures
        0 <= skip_ws_back(s, j) <= j,
    decreases j,
{
    if j > 0 && is_whitespace(s[j - 1]) {
        lemma_skip_ws_back_bounds(s, j - 1);
    }
}

/// `str::trim`, on characters.
pub fn trim_chars(v: &Vec<char>) -> (r: Vec<char>)
    ensures
        r@ == trim(v@),
{
    let mut a: usize = 0;
    while a < v.len() && char_is_whitespace(v[a])
        invariant
            a <= v@.len(),
            skip_ws(v@, 0) == skip_ws(v@, a as int),
        decreases v@.len() - a,
    {
        a = a + 1;
    }
    let mut b: usize = v.len();
    while b > 0 && char_is_whitespace(v[b - 1])
        invariant
            b <= v@.len(),
            skip_ws_back(v@, v@.len() as int) == skip_ws_back(v@, b as int),
        decreases b,
    {
        b = b - 1;
    }
    let e = if b > a { b } else { a };
    let mut r: Vec<char> = Vec::new();
    let mut i = a;
    while i < e
        invariant
            a <= i <= e <= v@.len(),
            r@ == v@.subrange(a as int, i as int),
        decreases e - i,
    {
        r.push(v[i]);
        assert(v@.subrange(a as int, i + 1) =~= v@.subrange(a as int, i as int).push(v@[i as int]));
        i = i + 1;
    }
    r
}

/// Splits `s` at every occurrence of the non-empty pattern `p`, searching from
/// the left (`str::split` with a string pattern).
pub open spec fn split_pat(s: Seq<char>, p: Seq<char>) -> Seq<Seq<char>>
    decreases s.len(),
{
    if s.len() == 0 || p.len() == 0 {
        seq![s]
    } else if starts_with(s, p) {
        seq![Seq::<char>::empty()] + split_pat(s.skip(p.len() as int), p)
    } else {
        let r = split_pat(s.drop_first(), p);
        r.update(0, seq![s[0]] + r[0])
    }
}

pub proof fn lemma_split_pat_len(s: Seq<char>, p: Seq<char>)
    ensures
        split_pat(s, p).len() >= 1,
    decreases s.len(),
{
    if s.len() > 0 && p.len() > 0 {
        if starts_with(s, p) {
            lemma_split_pat_len(s.skip(p.len() as int), p);
        } else {
            lemma_split_pat_len(s.drop_first(), p);
        }
    }
}

/// `q` with `c` put in front of its first piece.
pub open spec fn prepend_first(c: Seq<char>, q: Seq<Seq<char>>) -> Seq<Seq<char>> {
    q.update(0, c + q[0])
}

/// `str::split` with a non-empty string pattern.
pub fn split_by(s: &str, p: &str) -> (r: Vec<String>)
    requires
        p@.len() > 0,
    ensures
        r@.map_values(|t: String| t@) == split_pat(s@, p@),
{
    let v = chars_of(s);
    let pv = chars_of(p);
    let mut done: Vec<String> = Vec::new();
    let mut cur: Vec<char> = Vec::new();
    let mut i: usize = 0;
    assert(v@.skip(0) =~= v@);
    proof {
        lemma_split_pat_len(v@, p@);
        assert(prepend_first(Seq::<char>::empty(), split_pat(v@, p@)) =~= split_pat(v@, p@));
    }
    while i < v.len()
        invariant
            v@ == s@,
            pv@ == p@,
            p@.len() > 0,
            i <= v@.len(),
            split_pat(v@, p@) == done@.map_values(|t: String| t@) + prepend_first(
                cur@,
                split_pat(v@.skip(i as int), p@),
            ),
        decreases v@.len() - i,
    {
        let ghost rest = v@.skip(i as int);
        proof {
            lemma_split_pat_len(rest, p@);
        }
        if matches_at(&v, i, &pv) {
            let ghost after = rest.skip(p@.len() as int);
            assert(after =~= v@.skip(i + pv@.len()));
            proof {
                lemma_split_pat_len(after, p@);
            }
            let piece = string_from_chars(cur.as_slice());
            let ghost old_done = done@;
            done.push(piece);
            assert(done@.map_values(|t: String| t@) =~= old_done.map_values(|t: String| t@).push(cur@));
            assert(prepend_first(cur@, split_pat(rest, p@)) =~= seq![cur@] + split_pat(after, p@));
            assert(prepend_first(Seq::<char>::empty(), split_pat(after, p@)) =~= split_pat(after, p@));
            cur = Vec::new();
            i = i + pv.len();
        } else {
            let c = v[i];
            let ghost after = rest.drop_first();
            assert(after =~= v@.skip(i + 1));
            proof {
                lemma_split_pat_len(after, p@);
            }
            let ghost old_cur = cur@;
            cur.push(c);
            assert(rest[0] == c);
            assert(split_pat(rest, p@) == split_pat(after, p@).update(0, seq![c] + split_pat(after, p@)[0]));
            assert(old_cur + (seq![c] + split_pat(after, p@)[0]) =~= cur@ + split_pat(after, p@)[0]);
            assert(prepend_first(old_cur, split_pat(rest, p@)) =~= prepend_first(cur@, split_pat(after, p@)));
            i = i + 1;
        }
    }
    assert(v@.skip(i as int) =~= Seq::<char>::empty());
    let piece = string_from_chars(cur.as_slice());
    let ghost old_done = done@;
    done.push(piece);
    assert(done@.map_values(|t: String| t@) =~= old_done.map_values(|t: String| t@).push(cur@));
    assert(prepend_first(cur@, seq![Seq::<char>::empty()]) =~= seq![cur@]);
    done
}


/// A line as `str::lines` gives it when a newline followed it: without a
/// trailing carriage return.
pub open spec fn strip_cr(l: Seq<char>) -> Seq<char> {
    if l.len() > 0 && l.last() == '\r' {
        l.drop_last()
    } else {
        l
    }
}

/// `str::lines`: the pieces between newlines, each without a carriage return
/// before its newline, and no empty piece after a final newline.
pub open spec fn lines_of(s: Seq<char>) -> Seq<Seq<char>> {
    let p = split_char(s, '\n');
    p.drop_last().map_values(|l: Seq<char>| strip_cr(l)) + if p.last().len() > 0 {
        seq![p.last()]
    } else {
        Seq::<Seq<char>>::empty()
    }
}

/// `str::lines`.
pub fn lines(s: &str) -> (r: Vec<String>)
    ensures
        r@.map_values(|t: String| t@) == lines_of(s@),
{
    let v = chars_of(s);
    let mut done: Vec<String> = Vec::new();
    let mut cur: Vec<char> = Vec::new();
    let mut i: usize = 0;
    proof {
        lemma_split_char_len(v@.subrange(0, 0), '\n');
        assert(v@.subrange(0, 0) =~= Seq::<char>::empty());
        assert(done@.map_values(|t: String| t@) =~= split_char(v@.subrange(0, 0), '\n').drop_last().map_values(|l: Seq<char>| strip_cr(l)));
    }
    while i < v.len()
        invariant
            v@ == s@,
            i <= v@.len(),
            split_char(v@.subrange(0, i as int), '\n').len() >= 1,
            done@.map_values(|t: String| t@) == split_char(v@.subrange(0, i as int), '\n').drop_last().map_values(
                |l: Seq<char>| strip_cr(l),
            ),
            cur@ == split_char(v@.subrange(0, i as int), '\n').last(),
        decreases v@.len() - i,
    {
        let ghost pre = v@.subrange(0, i as int);
        let ghost next = v@.subrange(0, i + 1);
        assert(next.drop_last() =~= pre);
        let c = v[i];
        let ghost pieces = split_char(pre, '\n');
        if c == '\n' {
            let end = if cur.len() > 0 && cur[cur.len() - 1] == '\r' {
                cur.len() - 1
            } else {
                cur.len()
            };
            let line = string_from_range(&cur, 0, end);
            assert(cur@.subrange(0, end as int) =~= strip_cr(cur@));
            let ghost old_done = done@;
            done.push(line);
            assert(split_char(next, '\n') == pieces.push(Seq::<char>::empty()));
            assert(split_char(next, '\n').drop_last() =~= pieces);
            assert(pieces =~= pieces.drop_last().push(pieces.last()));
            assert(done@.map_values(|t: String| t@) =~= old_done.map_values(|t: String| t@).push(strip_cr(cur@)));
            assert(pieces.map_values(|l: Seq<char>| strip_cr(l)) =~= pieces.drop_last().map_values(|l: Seq<char>| strip_cr(l)).push(strip_cr(pieces.last())));
            assert(done@.map_values(|t: String| t@) =~= split_char(next, '\n').drop_last().map_values(
                |l: Seq<char>| strip_cr(l),
            ));
            cur = Vec::new();
        } else {
            cur.push(c);
            assert(split_char(next, '\n') == pieces.update(pieces.len() - 1, pieces.last().push(c)));
            assert(split_char(next, '\n').drop_last() =~= pieces.drop_last());
        }
        i = i + 1;
    }
    assert(v@.subrange(0, v@.len() as int) =~= s@);
    let ghost old_done = done@;
    if cur.len() > 0 {
        let line = string_from_range(&cur, 0, cur.len());
        assert(cur@.subrange(0, cur@.len() as int) =~= cur@);
        done.push(line);
        assert(done@.map_values(|t: String| t@) =~= old_done.map_values(|t: String| t@) + seq![cur@]);
    } else {
        assert(done@.map_values(|t: String| t@) =~= old_done.map_values(|t: String| t@) + Seq::<Seq<char>>::empty());
    }
    done
}

/// The whitespace-separated words of `s` seen so far: the finished words and
/// the word under way.
pub open spec fn words_acc(s: Seq<char>) -> (Seq<Seq<char>>, Seq<char>)
    decreases s.len(),
{
    if s.len() == 0 {
        (Seq::empty(), Seq::empty())
    } else {
        let (done, cur) = words_acc(s.drop_last());
        if is_whitespace(s.last()) {
            if cur.len() > 0 {
                (done.push(cur), Seq::empty())
            } else {
                (done, cur)
            }
        } else {
            (done, cur.push(s.last()))
        }
    }
}

/// `str::split_whitespace`: the maximal runs of non-whitespace characters.
pub open spec fn words(s: Seq<char>) -> Seq<Seq<char>> {
    let (done, cur) = words_acc(s);
    if cur.len() > 0 {
        done.push(cur)
    } else {
        done
    }
}

/// `str::split_whitespace`.
pub fn split_whitespace(s: &str) -> (r: Vec<String>)
    ensures
        r@.map_values(|t: String| t@) == words(s@),
{
    let v = chars_of(s);
    let mut done: Vec<String> = Vec::new();
    let mut cur: Vec<char> = Vec::new();
    let mut i: usize = 0;
    assert(v@.subrange(0, 0) =~= Seq::<char>::empty());
    assert(done@.map_values(|t: String| t@) =~= Seq::<Seq<char>>::empty());
    while i < v.len()
        invariant
            v@ == s@,
            i <= v@.len(),
            done@.map_values(|t: String| t@) == words_acc(v@.subrange(0, i as int)).0,
            cur@ == words_acc(v@.subrange(0, i as int)).1,
        decreases v@.len() - i,
    {
        let ghost next = v@.subrange(0, i + 1);
        assert(next.drop_last() =~= v@.subrange(0, i as int));
        let c = v[i];
        if char_is_whitespace(c) {
            if cur.len() > 0 {
                let w = string_from_range(&cur, 0, cur.len());
                assert(cur@.subrange(0, cur@.len() as int) =~= cur@);
                let ghost old_done = done@;
                done.push(w);
                assert(done@.map_values(|t: String| t@) =~= old_done.map_values(|t: String| t@).push(cur@));
                cur = Vec::new();
            }
        } else {
            cur.push(c);
        }
        i = i + 1;
    }
    assert(v@.subrange(0, v@.len() as int) =~= s@);
    if cur.len() > 0 {
        let w = string_from_range(&cur, 0, cur.len());
        assert(cur@.subrange(0, cur@.len() as int) =~= cur@);
        let ghost old_done = done@;
        done.push(w);
        assert(done@.map_values(|t: String| t@) =~= old_done.map_values(|t: String| t@).push(cur@));
    }
    done
}


pub open spec fn is_digit(c: char) -> bool {
    '0' <= c && c <= '9'
}

pub open spec fn digit_value(c: char) -> nat {
    (c as int - '0' as int) as nat
}

pub open spec fn all_digits(s: Seq<char>) -> bool {
    forall|i: int| 0 <= i < s.len() ==> is_digit(#[trigger] s[i])
}

/// The value of a run of decimal digits.
pub open spec fn digits_value(s: Seq<char>) -> nat
    decreases s.len(),
{
    if s.len() == 0 {
        0
    } else {
        digits_value(s.drop_last()) * 10 + digit_value(s.last())
    }
}

/// `str::parse` into an unsigned integer type whose largest value is `max`:
/// an optional `+`, then at least one decimal digit, and a value that fits.
pub open spec fn parse_unsigned(s: Seq<char>, max: nat) -> Option<nat> {
    let body = if s.len() > 0 && s[0] == '+' {
        s.drop_first()
    } else {
        s
    };
    if body.len() == 0 || !all_digits(body) || digits_value(body) > max {
        None
    } else {
        Some(digits_value(body))
    }
}

/// `str::parse` into a signed integer type with range `min..=max`: an
/// optional `+` or `-`, then at least one decimal digit, and a value in range.
pub open spec fn parse_signed(s: Seq<char>, min: int, max: int) -> Option<int> {
    if s.len() > 0 && s[0] == '-' {
        let body = s.drop_first();
        if body.len() == 0 || !all_digits(body) || -(digits_value(body) as int) < min {
            None
        } else {
            Some(-(digits_value(body) as int))
        }
    } else {
        match parse_unsigned(s, max as nat) {
            Some(v) => Some(v as int),
            None => None,
        }
    }
}

proof fn lemma_digits_value_prefix(s: Seq<char>, k: int)
    requires
        0 <= k <= s.len(),
    ensures
        digits_value(s.subrange(0, k)) <= digits_value(s),
    decreases s.len() - k,
{
    if k < s.len() {
        lemma_digits_value_prefix(s.drop_last(), k);
        assert(s.drop_last().subrange(0, k) =~= s.subrange(0, k));
    } else {
        assert(s.subrange(0, k) =~= s);
    }
}

/// The value of the digits `v[start..]` when they are all digits and the value
/// is at most `max`.
fn parse_digits(v: &Vec<char>, start: usize, max: u64) -> (r: Option<u64>)
    requires
        start <= v@.len(),
    ensures
        r == (if start < v@.len() && all_digits(v@.skip(start as int)) && digits_value(v@.skip(start as int)) <= max {
            Some(digits_value(v@.skip(start as int)) as u64)
        } else {
            None::<u64>
        }),
{
    let ghost body = v@.skip(start as int);
    if start >= v.len() {
        return None;
    }
    let mut acc: u64 = 0;
    let mut i: usize = start;
    assert(body.subrange(0, 0) =~= Seq::<char>::empty());
    while i < v.len()
        invariant
            start <= i <= v@.len(),
            body == v@.skip(start as int),
            all_digits(body.subrange(0, i - start)),
            acc == digits_value(body.subrange(0, i - start)),
            acc <= max,
        decreases v@.len() - i,
    {
        let c = v[i];
        let ghost pre = body.subrange(0, i - start);
        let ghost next = body.subrange(0, i + 1 - start);
        assert(next.drop_last() =~= pre);
        assert(next.last() == c);
        if !('0' <= c && c <= '9') {
            assert(!all_digits(body)) by {
                assert(body[i - start] == c);
            }
            return None;
        }
        let d = (c as u32 - '0' as u32) as u64;
        assert(d == digit_value(c));
        if d > max || acc > (max - d) / 10 {
            assert(acc * 10 + d > max) by (nonlinear_arith)
                requires
                    d > max || acc > (max - d) / 10,
                    d <= 9,
                    acc >= 0,
            ;
            proof {
                lemma_digits_value_prefix(body, i + 1 - start);
            }
            return None;
        }
        assert(acc * 10 + d <= max) by (nonlinear_arith)
            requires
                acc <= (max - d) / 10,
                d <= max,
        ;
        acc = acc * 10 + d;
        assert forall|j: int| 0 <= j < next.len() implies is_digit(#[trigger] next[j]) by {
            if j < pre.len() {
                assert(next[j] == pre[j]);
            }
        }
        i = i + 1;
    }
    assert(body.subrange(0, v@.len() - start) =~= body);
    Some(acc)
}

/// `str::parse::<usize>()`.
pub fn parse_usize(s: &str) -> (r: Option<usize>)
    ensures
        r matches Some(x) ==> parse_unsigned(s@, usize::MAX as nat) == Some(x as nat),
        r is None ==> parse_unsigned(s@, usize::MAX as nat) is None,
{
    let v = chars_of(s);
    let start: usize = if v.len() > 0 && v[0] == '+' { 1 } else { 0 };
    assert(v@.skip(start as int) =~= if s@.len() > 0 && s@[0] == '+' { s@.drop_first() } else { s@ });
    match parse_digits(&v, start, usize::MAX as u64) {
        Some(x) => Some(x as usize),
        None => None,
    }
}

/// `str::parse::<u32>()`.
pub fn parse_u32(s: &str) -> (r: Option<u32>)
    ensures
        r matches Some(x) ==> parse_unsigned(s@, u32::MAX as nat) == Some(x as nat),
        r is None ==> parse_unsigned(s@, u32::MAX as nat) is None,
{
    let v = chars_of(s);
    let start: usize = if v.len() > 0 && v[0] == '+' { 1 } else { 0 };
    assert(v@.skip(start as int) =~= if s@.len() > 0 && s@[0] == '+' { s@.drop_first() } else { s@ });
    match parse_digits(&v, start, u32::MAX as u64) {
        Some(x) => Some(x as u32),
        None => None,
    }
}

/// `str::parse::<i32>()`.
pub fn parse_i32(s: &str) -> (r: Option<i32>)
    ensures
        r matches Some(x) ==> parse_signed(s@, i32::MIN as int, i32::MAX as int) == Some(x as int),
        r is None ==> parse_signed(s@, i32::MIN as int, i32::MAX as int) is None,
{
    let v = chars_of(s);
    if v.len() > 0 && v[0] == '-' {
        assert(v@.skip(1) =~= s@.drop_first());
        match parse_digits(&v, 1, 2147483648u64) {
            Some(x) => {
                let y: i64 = 0i64 - (x as i64);
                Some(y as i32)
            },
            None => None,
        }
    } else {
        let start: usize = if v.len() > 0 && v[0] == '+' { 1 } else { 0 };
        assert(v@.skip(start as int) =~= if s@.len() > 0 && s@[0] == '+' { s@.drop_first() } else { s@ });
        match parse_digits(&v, start, 2147483647u64) {
            Some(x) => Some(x as i32),
            None => None,
        }
    }
}


/// `str::replace` with an empty pattern: `r` before every character and at
/// the end.
pub open spec fn replace_empty(s: Seq<char>, r: Seq<char>) -> Seq<char>
    decreases s.len(),
{
    if s.len() == 0 {
        r
    } else {
        r + seq![s[0]] + replace_empty(s.drop_first(), r)
    }
}

/// `str::replace`: every occurrence of `p`, found from the left without
/// overlap, replaced by `r`.
pub open spec fn replace_all(s: Seq<char>, p: Seq<char>, r: Seq<char>) -> Seq<char>
    decreases s.len(),
{
    if p.len() == 0 {
        replace_empty(s, r)
    } else if s.len() == 0 {
        s
    } else if starts_with(s, p) {
        r + replace_all(s.skip(p.len() as int), p, r)
    } else {
        seq![s[0]] + replace_all(s.drop_first(), p, r)
    }
}

/// `str::replace`.
pub fn replace(s: &str, p: &str, r: &str) -> (out: String)
    ensures
        out@ == replace_all(s@, p@, r@),
{
    let v = chars_of(s);
    let pv = chars_of(p);
    let mut out = String::new();
    let mut i: usize = 0;
    assert(v@.skip(0) =~= v@);
    if pv.len() == 0 {
        while i < v.len()
            invariant
                v@ == s@,
                p@.len() == 0,
                i <= v@.len(),
                out@ + replace_empty(v@.skip(i as int), r@) == replace_all(s@, p@, r@),
            decreases v@.len() - i,
        {
            let ghost rest = v@.skip(i as int);
            assert(rest.drop_first() =~= v@.skip(i + 1));
            let ghost before = out@;
            push_str(&mut out, r);
            string_push(&mut out, v[i]);
            assert(before + replace_empty(rest, r@) =~= out@ + replace_empty(v@.skip(i + 1), r@));
            i = i + 1;
        }
        let ghost before = out@;
        push_str(&mut out, r);
        assert(before + replace_empty(v@.skip(i as int), r@) =~= out@) by {
            assert(v@.skip(i as int) =~= Seq::<char>::empty());
        }
        return out;
    }
    while i < v.len()
        invariant
            v@ == s@,
            pv@ == p@,
            p@.len() > 0,
            i <= v@.len(),
            out@ + replace_all(v@.skip(i as int), p@, r@) == replace_all(s@, p@, r@),
        decreases v@.len() - i,
    {
        let ghost rest = v@.skip(i as int);
        let ghost before = out@;
        if matches_at(&v, i, &pv) {
            assert(rest.skip(p@.len() as int) =~= v@.skip(i + pv@.len()));
            push_str(&mut out, r);
            assert(before + replace_all(rest, p@, r@) =~= out@ + replace_all(v@.skip(i + pv@.len()), p@, r@));
            i = i + pv.len();
        } else {
            assert(rest.drop_first() =~= v@.skip(i + 1));
            string_push(&mut out, v[i]);
            assert(before + replace_all(rest, p@, r@) =~= out@ + replace_all(v@.skip(i + 1), p@, r@));
            i = i + 1;
        }
    }
    assert(out@ + replace_all(v@.skip(i as int), p@, r@) =~= out@) by {
        assert(v@.skip(i as int) =~= Seq::<char>::empty());
    }
    out
}

/// Replacing a text by itself changes nothing.
pub proof fn law_replace_with_itself(s: Seq<char>, p: Seq<char>)
    ensures
        replace_all(s, p, p) == s,
    decreases s.len(),
{
    if p.len() == 0 {
        assert(p =~= Seq::<char>::empty());
        lemma_replace_empty_nothing(s);
    } else if s.len() > 0 {
        if starts_with(s, p) {
            law_replace_with_itself(s.skip(p.len() as int), p);
            assert(s =~= p + s.skip(p.len() as int));
        } else {
            law_replace_with_itself(s.drop_first(), p);
            assert(s =~= seq![s[0]] + s.drop_first());
        }
    }
}

proof fn lemma_replace_empty_nothing(s: Seq<char>)
    ensures
        replace_empty(s, Seq::empty()) == s,
    decreases s.len(),
{
    if s.len() > 0 {
        lemma_replace_empty_nothing(s.drop_first());
        assert(s =~= Seq::<char>::empty() + seq![s[0]] + s.drop_first());
    } else {
        assert(s =~= Seq::<char>::empty());
    }
}

/// A text without the pattern comes back unchanged.
pub proof fn law_replace_absent(s: Seq<char>, p: Seq<char>, r: Seq<char>)
    requires
        p.len() > 0,
        !contains_sub(s, p),
    ensures
        replace_all(s, p, r) == s,
    decreases s.len(),
{
    if s.len() > 0 {
        if starts_with(s, p) {
            assert(s.subrange(0, 0 + p.len() as int) == p);
        }
        assert(!contains_sub(s.drop_first(), p)) by {
            if contains_sub(s.drop_first(), p) {
                let i = choose|i: int| 0 <= i <= s.drop_first().len() - p.len() && #[trigger] s.drop_first().subrange(i, i + p.len()) == p;
                assert(s.subrange(i + 1, i + 1 + p.len()) =~= s.drop_first().subrange(i, i + p.len()));
            }
        }
        law_replace_absent(s.drop_first(), p, r);
        assert(s =~= seq![s[0]] + s.drop_first());
    }
}


/// Whether two texts are the same.
pub fn str_eq(a: &str, b: &str) -> (r: bool)
    ensures
        r == (a@ == b@),
{
    let av = chars_of(a);
    let bv = chars_of(b);
    if av.len() != bv.len() {
        return false;
    }
    let mut i: usize = 0;
    while i < av.len()
        invariant
            av@ == a@,
            bv@ == b@,
            av@.len() == bv@.len(),
            i <= av@.len(),
            forall|j: int| 0 <= j < i ==> av@[j] == bv@[j],
        decreases av@.len() - i,
    {
        if av[i] != bv[i] {
            return false;
        }
        i = i + 1;
    }
    assert(av@ =~= bv@);
    true
}

/// The first `n` characters (all of them when there are fewer).
pub open spec fn take_chars(s: Seq<char>, n: nat) -> Seq<char> {
    if s.len() <= n {
        s
    } else {
        s.take(n as int)
    }
}

/// `s.chars().take(n).collect()`.
pub fn first_chars(s: &str, n: usize) -> (r: String)
    ensures
        r@ == take_chars(s@, n as nat),
{
    let v = chars_of(s);
    let end = if v.len() <= n { v.len() } else { n };
    assert(v@.subrange(0, end as int) =~= take_chars(s@, n as nat));
    string_from_range(&v, 0, end)
}

/// The value parsed as a `u32`, or zero (`parse().unwrap_or(0)`).
pub open spec fn u32_or_zero(s: Seq<char>) -> u32 {
    match parse_unsigned(s, u32::MAX as nat) {
        Some(v) => v as u32,
        None => 0,
    }
}

pub fn parse_u32_or_zero(s: &str) -> (r: u32)
    ensures
        r == u32_or_zero(s@),
{
    match parse_u32(s) {
        Some(v) => v,
        None => 0,
    }
}


/// Joins `parts[start..]` with `sep` between them.
pub fn join_from(parts: &Vec<String>, start: usize, sep: char) -> (s: String)
    requires
        start <= parts@.len(),
    ensures
        s@ == join_with(parts@.map_values(|t: String| t@).skip(start as int), seq![sep]),
{
    let ghost q = parts@.map_values(|t: String| t@);
    let mut s = String::new();
    let mut i = start;
    assert(q.skip(start as int).subrange(0, 0) =~= Seq::<Seq<char>>::empty());
    while i < parts.len()
        invariant
            start <= i <= parts@.len(),
            q == parts@.map_values(|t: String| t@),
            s@ == join_with(q.skip(start as int).subrange(0, i - start), seq![sep]),
        decreases parts@.len() - i,
    {
        let ghost sub = q.skip(start as int).subrange(0, i + 1 - start);
        assert(sub.drop_last() =~= q.skip(start as int).subrange(0, i - start));
        assert(sub.last() == parts@[i as int]@);
        let ghost before = s@;
        if i > start {
            string_push(&mut s, sep);
        }
        push_str(&mut s, parts[i].as_str());
        if i == start {
            assert(sub.len() == 1);
            assert(before =~= Seq::<char>::empty());
            assert(s@ =~= join_with(sub, seq![sep]));
        } else {
            assert(s@ =~= join_with(sub, seq![sep]));
        }
        i = i + 1;
    }
    assert(q.skip(start as int).subrange(0, parts@.len() - start) =~= q.skip(start as int));
    s
}


/// `split_whitespace().nth(1)`: the second word, if there is one.
pub fn second_word(text: &str) -> (r: Option<String>)
    ensures
        r matches Some(w) ==> words(text@).len() >= 2 && w@ == words(text@)[1],
        r is None ==> words(text@).len() < 2,
{
    let ws = split_whitespace(text);
    if ws.len() >= 2 {
        assert(ws@.map_values(|t: String| t@)[1] == ws@[1]@);
        Some(ws[1].clone())
    } else {
        None
    }
}


/// Joins the strings with `sep` between them (`join` on a slice of strings).
pub fn join_strs(parts: &Vec<String>, sep: &str) -> (s: String)
    ensures
        s@ == join_with(parts@.map_values(|t: String| t@), sep@),
{
    let ghost q = parts@.map_values(|t: String| t@);
    let mut s = String::new();
    let mut i: usize = 0;
    assert(q.subrange(0, 0) =~= Seq::<Seq<char>>::empty());
    while i < parts.len()
        invariant
            i <= parts@.len(),
            q == parts@.map_values(|t: String| t@),
            s@ == join_with(q.subrange(0, i as int), sep@),
        decreases parts@.len() - i,
    {
        let ghost sub = q.subrange(0, i + 1);
        assert(sub.drop_last() =~= q.subrange(0, i as int));
        assert(sub.last() == parts@[i as int]@);
        let ghost before = s@;
        if i > 0 {
            push_str(&mut s, sep);
        }
        push_str(&mut s, parts[i].as_str());
        if i == 0 {
            assert(sub.len() == 1);
            assert(before =~= Seq::<char>::empty());
            assert(s@ =~= join_with(sub, sep@));
        } else {
            assert(s@ =~= join_with(sub, sep@));
        }
        i = i + 1;
    }
    assert(q.subrange(0, parts@.len() as int) =~= q);
    s
}


/// The pieces that are not empty.
pub open spec fn non_empty(q: Seq<Seq<char>>) -> Seq<Seq<char>>
    decreases q.len(),
{
    if q.len() == 0 {
        q
    } else {
        let r = non_empty(q.drop_last());
        if q.last().len() > 0 {
            r.push(q.last())
        } else {
            r
        }
    }
}


proof fn lemma_digit_char(d: nat)
    requires
        d < 10,
    ensures
        is_digit(digit_char(d)),
        digit_value(digit_char(d)) == d,
{
    assert(d == 0 || d == 1 || d == 2 || d == 3 || d == 4 || d == 5 || d == 6 || d == 7 || d == 8
        || d == 9);
}

proof fn lemma_decimal_value(n: nat)
    ensures
        all_digits(decimal(n)),
        decimal(n).len() >= 1,
        digits_value(decimal(n)) == n,
    decreases n,
{
    if n < 10 {
        lemma_digit_char(n);
        assert(seq![digit_char(n)].drop_last() =~= Seq::<char>::empty());
        assert(digits_value(Seq::<char>::empty()) == 0);
        assert(decimal(n) == seq![digit_char(n)]);
        assert(digits_value(decimal(n)) == digits_value(Seq::<char>::empty()) * 10 + digit_value(digit_char(n)));
    } else {
        lemma_decimal_value(n / 10);
        lemma_digit_char(n % 10);
        let s = decimal(n);
        assert(s.drop_last() =~= decimal(n / 10));
        assert forall|i: int| 0 <= i < s.len() implies is_digit(#[trigger] s[i]) by {
            if i < s.len() - 1 {
                assert(s[i] == decimal(n / 10)[i]);
            }
        }
        assert(s.last() == digit_char(n % 10));
        assert(digits_value(s) == digits_value(decimal(n / 10)) * 10 + digit_value(digit_char(n % 10)));
        assert((n / 10) * 10 + n % 10 == n);
    }
}

/// What `{}` prints of a number, parsing reads back, whenever the number fits
/// the type.
pub proof fn law_parse_decimal(n: nat, max: nat)
    requires
        n <= max,
    ensures
        parse_unsigned(decimal(n), max) == Some(n),
{
    lemma_decimal_value(n);
    assert(decimal(n)[0] != '+') by {
        assert(is_digit(decimal(n)[0]));
    }
}

/// The uppercase mapping of a character, as `char::to_uppercase` of std
/// yields it.
pub uninterp spec fn uppercase_of(c: char) -> Seq<char>;

/// `char::to_uppercase` of std: the characters of `c`'s uppercase mapping.
#[verifier::external_body]
fn char_uppercase(c: char) -> (r: Vec<char>)
    ensures
        r@ == uppercase_of(c),
{
    c.to_uppercase().collect()
}

/// Whether `c` separates the words of a component name.
pub open spec fn is_word_sep(c: char) -> bool {
    c == '_' || c == '-'
}

/// The PascalCase form of `s`: separators vanish, and the first character of
/// each word is uppercased when `at_start` holds for the first one.
pub open spec fn pascal_from(s: Seq<char>, at_start: bool) -> Seq<char>
    decreases s.len(),
{
    if s.len() == 0 {
        Seq::empty()
    } else if is_word_sep(s[0]) {
        pascal_from(s.skip(1), true)
    } else if at_start {
        uppercase_of(s[0]) + pascal_from(s.skip(1), false)
    } else {
        seq![s[0]] + pascal_from(s.skip(1), false)
    }
}

/// The PascalCase form of a name whose words are separated by `_` or `-`.
pub open spec fn pascal_case(s: Seq<char>) -> Seq<char> {
    pascal_from(s, true)
}

/// Joins the words of a name separated by `_` or `-`, each word starting
/// with its first character uppercased.
pub fn to_pascal_case(name: &str) -> (s: String)
    ensures
        s@ == pascal_case(name@),
{
    let v = chars_of(name);
    let mut out = String::new();
    let mut at_start = true;
    let mut i: usize = 0;
    assert(v@.skip(0) =~= v@);
    while i < v.len()
        invariant
            i <= v@.len(),
            v@ == name@,
            out@ + pascal_from(v@.skip(i as int), at_start) == pascal_case(name@),
        decreases v@.len() - i,
    {
        let c = v[i];
        let ghost before = out@;
        let ghost rest = v@.skip(i + 1);
        assert(v@.skip(i as int).skip(1) =~= rest);
        assert(v@.skip(i as int)[0] == c);
        if c == '_' || c == '-' {
            at_start = true;
        } else if at_start {
            let up = char_uppercase(c);
            let t = string_from_chars(up.as_slice());
            push_str(&mut out, t.as_str());
            assert(before + (uppercase_of(c) + pascal_from(rest, false)) =~= out@ + pascal_from(rest, false));
            at_start = false;
        } else {
            string_push(&mut out, c);
            assert(before + (seq![c] + pascal_from(rest, false)) =~= out@ + pascal_from(rest, false));
        }
        i = i + 1;
    }
    assert(v@.skip(i as int) =~= Seq::<char>::empty());
    assert(out@ + Seq::<char>::empty() =~= out@);
    out
}

} // verus!
