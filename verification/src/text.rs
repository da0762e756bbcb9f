//! Character-level text handling for shader sources: whitespace, trimming,
//! searching and splitting into lines, with the meaning that Rust's `str`
//! methods of the same names give them.

use vstd::prelude::*;

verus! {

/// The characters of `s`, in order.
#[verifier::external_body]
pub fn str_chars(s: &str) -> (v: Vec<char>)
    ensures
        v@ == s@,
{
    s.chars().collect()
}

/// The string made of the characters `v`, in order.
#[verifier::external_body]
pub fn string_from_chars(v: &[char]) -> (s: String)
    ensures
        s@ == v@,
{
    v.iter().collect()
}

/// Unicode `White_Space`, the set that `char::is_whitespace` tests.
pub open spec fn is_ws(c: char) -> bool {
    let x = c as u32;
    (0x9 <= x <= 0xd) || x == 0x20 || x == 0x85 || x == 0xa0 || x == 0x1680 || (0x2000 <= x <= 0x200a)
        || x == 0x2028 || x == 0x2029 || x == 0x202f || x == 0x205f || x == 0x3000
}

pub fn is_whitespace(c: char) -> (r: bool)
    ensures
        r == is_ws(c),
{
    let x = c as u32;
    (0x9 <= x && x <= 0xd) || x == 0x20 || x == 0x85 || x == 0xa0 || x == 0x1680 || (0x2000 <= x && x
        <= 0x200a) || x == 0x2028 || x == 0x2029 || x == 0x202f || x == 0x205f || x == 0x3000
}

/// Index of the first non-whitespace character at or after `i`, or the
/// length when there is none.
pub open spec fn skip_ws(s: Seq<char>, i: int) -> int
    decreases s.len() - i,
{
    if i >= s.len() {
        s.len() as int
    } else if is_ws(s[i]) {
        skip_ws(s, i + 1)
    } else {
        i
    }
}

/// Index of the first whitespace character at or after `i`, or the length
/// when there is none.
pub open spec fn skip_non_ws(s: Seq<char>, i: int) -> int
    decreases s.len() - i,
{
    if i >= s.len() {
        s.len() as int
    } else if !is_ws(s[i]) {
        skip_non_ws(s, i + 1)
    } else {
        i
    }
}

/// End of `s[..j]` without its trailing whitespace.
pub open spec fn trailing_ws_start(s: Seq<char>, j: int) -> int
    decreases j,
{
    if j <= 0 {
        0
    } else if is_ws(s[j - 1]) {
        trailing_ws_start(s, j - 1)
    } else {
        j
    }
}

pub open spec fn trim_start(s: Seq<char>) -> Seq<char> {
    s.subrange(skip_ws(s, 0), s.len() as int)
}

pub open spec fn trim_end(s: Seq<char>) -> Seq<char> {
    s.subrange(0, trailing_ws_start(s, s.len() as int))
}

/// `s` without leading and trailing whitespace.
pub open spec fn trim(s: Seq<char>) -> Seq<char> {
    trim_end(trim_start(s))
}

pub open spec fn starts_with(s: Seq<char>, p: Seq<char>) -> bool {
    p.len() <= s.len() && s.subrange(0, p.len() as int) == p
}

pub open spec fn matches_at(s: Seq<char>, p: Seq<char>, i: int) -> bool {
    0 <= i && i + p.len() <= s.len() && s.subrange(i, i + p.len()) == p
}

/// First index at or after `i` where `p` occurs in `s`.
pub open spec fn find_from(s: Seq<char>, p: Seq<char>, i: int) -> Option<int>
    decreases s.len() + 1 - i,
{
    if i < 0 || i + p.len() > s.len() {
        None
    } else if matches_at(s, p, i) {
        Some(i)
    } else {
        find_from(s, p, i + 1)
    }
}

pub open spec fn contains(s: Seq<char>, p: Seq<char>) -> bool {
    find_from(s, p, 0) is Some
}

/// First index at or after `i` that holds `c`.
pub open spec fn find_char_from(s: Seq<char>, c: char, i: int) -> Option<int>
    decreases s.len() - i,
{
    if i < 0 || i >= s.len() {
        None
    } else if s[i] == c {
        Some(i)
    } else {
        find_char_from(s, c, i + 1)
    }
}

/// A line as `str::lines` gives it: the text before a `\n`, without a `\r`
/// right before that `\n`.
pub open spec fn strip_cr(line: Seq<char>) -> Seq<char> {
    if line.len() > 0 && line.last() == '\r' {
        line.drop_last()
    } else {
        line
    }
}

/// The lines of `s`, as `str::lines` splits them: at each `\n` (dropping a
/// `\r` before it); a final line without `\n` counts when it is not empty.
pub open spec fn lines(s: Seq<char>) -> Seq<Seq<char>>
    decreases s.len(),
{
    match find_char_from(s, '\n', 0) {
        None => if s.len() == 0 {
            Seq::empty()
        } else {
            seq![s]
        },
        Some(i) => {
            if 0 <= i < s.len() {
                seq![strip_cr(s.subrange(0, i))] + lines(s.subrange(i + 1, s.len() as int))
            } else {
                Seq::empty()
            }
        },
    }
}

/// The first whitespace-separated token of `s` and the text after it.
pub open spec fn first_token(s: Seq<char>) -> Option<(Seq<char>, Seq<char>)> {
    let start = skip_ws(s, 0);
    if start >= s.len() {
        None
    } else {
        let end = skip_non_ws(s, start);
        Some((s.subrange(start, end), s.subrange(end, s.len() as int)))
    }
}

pub proof fn lemma_skip_ws(s: Seq<char>, i: int)
    requires
        0 <= i <= s.len(),
    ensures
        i <= skip_ws(s, i) <= s.len(),
        forall|k: int| i <= k < skip_ws(s, i) ==> is_ws(#[trigger] s[k]),
        skip_ws(s, i) < s.len() ==> !is_ws(s[skip_ws(s, i)]),
    decreases s.len() - i,
{
    if i < s.len() && is_ws(s[i]) {
        lemma_skip_ws(s, i + 1);
    }
}

pub proof fn lemma_skip_non_ws(s: Seq<char>, i: int)
    requires
        0 <= i <= s.len(),
    ensures
        i <= skip_non_ws(s, i) <= s.len(),
        forall|k: int| i <= k < skip_non_ws(s, i) ==> !is_ws(#[trigger] s[k]),
    decreases s.len() - i,
{
    if i < s.len() && !is_ws(s[i]) {
        lemma_skip_non_ws(s, i + 1);
    }
}

pub proof fn lemma_trailing_ws_start(s: Seq<char>, j: int)
    requires
        0 <= j <= s.len(),
    ensures
        0 <= trailing_ws_start(s, j) <= j,
    decreases j,
{
    if j > 0 && is_ws(s[j - 1]) {
        lemma_trailing_ws_start(s, j - 1);
    }
}

pub proof fn lemma_find_char_from(s: Seq<char>, c: char, i: int)
    requires
        0 <= i,
    ensures
        match find_char_from(s, c, i) {
            Some(j) => i <= j < s.len() && s[j] == c && forall|k: int| i <= k < j ==> #[trigger] s[k] != c,
            None => forall|k: int| i <= k < s.len() ==> #[trigger] s[k] != c,
        },
    decreases s.len() - i,
{
    if i < s.len() && s[i] != c {
        lemma_find_char_from(s, c, i + 1);
    }
}

/// Searching a suffix is searching the whole from the suffix's start.
pub proof fn lemma_find_char_shift(s: Seq<char>, c: char, k: int, j: int)
    requires
        0 <= k <= s.len(),
        0 <= j,
    ensures
        find_char_from(s.subrange(k, s.len() as int), c, j) == match find_char_from(s, c, k + j) {
            Some(x) => Some(x - k),
            None => None::<int>,
        },
    decreases s.len() - k - j,
{
    let t = s.subrange(k, s.len() as int);
    if j < t.len() {
        assert(t[j] == s[k + j]);
        if t[j] != c {
            lemma_find_char_shift(s, c, k, j + 1);
        }
    }
}

/// Index of the first non-whitespace character at or after `i`.
pub fn skip_whitespace(s: &[char], i: usize) -> (r: usize)
    requires
        i <= s@.len(),
    ensures
        r == skip_ws(s@, i as int),
{
    let mut k = i;
    while k < s.len() && is_whitespace(s[k])
        invariant
            i <= k <= s@.len(),
            skip_ws(s@, i as int) == skip_ws(s@, k as int),
        decreases s@.len() - k,
    {
        k = k + 1;
    }
    k
}

/// Index of the first whitespace character at or after `i`.
pub fn skip_non_whitespace(s: &[char], i: usize) -> (r: usize)
    requires
        i <= s@.len(),
    ensures
        r == skip_non_ws(s@, i as int),
{
    let mut k = i;
    while k < s.len() && !is_whitespace(s[k])
        invariant
            i <= k <= s@.len(),
            skip_non_ws(s@, i as int) == skip_non_ws(s@, k as int),
        decreases s@.len() - k,
    {
        k = k + 1;
    }
    k
}

/// `s` without leading and trailing whitespace.
pub fn trim_chars(s: &[char]) -> (r: Vec<char>)
    ensures
        r@ == trim(s@),
{
    let start = skip_whitespace(s, 0);
    proof {
        lemma_skip_ws(s@, 0);
    }
    let ghost t = s@.subrange(start as int, s@.len() as int);
    let mut end = s.len();
    while end > start && is_whitespace(s[end - 1])
        invariant
            start <= end <= s@.len(),
            t == s@.subrange(start as int, s@.len() as int),
            trailing_ws_start(t, t.len() as int) == trailing_ws_start(t, end - start),
        decreases end,
    {
        assert(t[end - start - 1] == s@[end - 1]);
        end = end - 1;
    }
    proof {
        if end > start {
            assert(t[end - start - 1] == s@[end - 1]);
        }
    }
    let r = copy_range(s, start, end);
    assert(r@ =~= trim(s@));
    r
}

/// `s[from..to]`.
pub fn copy_range(s: &[char], from: usize, to: usize) -> (r: Vec<char>)
    requires
        from <= to <= s@.len(),
    ensures
        r@ == s@.subrange(from as int, to as int),
{
    let mut r: Vec<char> = Vec::new();
    let mut k = from;
    while k < to
        invariant
            from <= k <= to <= s@.len(),
            r@ =~= s@.subrange(from as int, k as int),
        decreases to - k,
    {
        r.push(s[k]);
        k = k + 1;
    }
    r
}

/// Whether `p` occurs in `s` at index `i`.
pub fn matches_at_exec(s: &[char], p: &[char], i: usize) -> (r: bool)
    ensures
        r == matches_at(s@, p@, i as int),
{
    let n = s.len();
    if i > n || p.len() > n - i {
        return false;
    }
    let mut k: usize = 0;
    while k < p.len()
        invariant
            n == s@.len(),
            i + p@.len() <= s@.len(),
            k <= p@.len(),
            forall|m: int| 0 <= m < k ==> s@[i + m] == p@[m],
        decreases p@.len() - k,
    {
        if s[i + k] != p[k] {
            assert(s@.subrange(i as int, i + p@.len())[k as int] != p@[k as int]);
            return false;
        }
        k = k + 1;
    }
    assert(s@.subrange(i as int, i + p@.len()) =~= p@);
    true
}

/// Whether `s` begins with `p`.
pub fn starts_with_exec(s: &[char], p: &[char]) -> (r: bool)
    ensures
        r == starts_with(s@, p@),
{
    matches_at_exec(s, p, 0)
}

/// First index at or after `i` where `p` occurs in `s`.
pub fn find_from_exec(s: &[char], p: &[char], i: usize) -> (r: Option<usize>)
    ensures
        match r {
            Some(k) => find_from(s@, p@, i as int) == Some(k as int),
            None => find_from(s@, p@, i as int) is None,
        },
{
    let n = s.len();
    if p.len() > n || i > n - p.len() {
        return None;
    }
    let last = n - p.len();
    let mut k = i;
    loop
        invariant
            n == s@.len(),
            last + p@.len() == n,
            i <= k <= last,
            find_from(s@, p@, i as int) == find_from(s@, p@, k as int),
        decreases last - k,
    {
        if matches_at_exec(s, p, k) {
            return Some(k);
        }
        if k == last {
            assert(find_from(s@, p@, k + 1) is None);
            return None;
        }
        k = k + 1;
    }
}

/// First index at or after `i` that holds `c`.
pub fn find_char_from_exec(s: &[char], c: char, i: usize) -> (r: Option<usize>)
    ensures
        match r {
            Some(k) => find_char_from(s@, c, i as int) == Some(k as int),
            None => find_char_from(s@, c, i as int) is None,
        },
{
    let mut k = i;
    while k < s.len()
        invariant
            i <= k,
            find_char_from(s@, c, i as int) == find_char_from(s@, c, k as int),
        decreases s@.len() - k,
    {
        if s[k] == c {
            return Some(k);
        }
        k = k + 1;
    }
    None
}

/// Whether `p` occurs anywhere in `s`.
pub fn contains_exec(s: &[char], p: &[char]) -> (r: bool)
    ensures
        r == contains(s@, p@),
{
    find_from_exec(s, p, 0).is_some()
}

/// The lines of `s`, as [`lines`] says.
pub fn split_lines(s: &[char]) -> (r: Vec<Vec<char>>)
    ensures
        r@.map_values(|l: Vec<char>| l@) == lines(s@),
{
    let mut out: Vec<Vec<char>> = Vec::new();
    let mut start: usize = 0;
    assert(s@.subrange(0, s@.len() as int) =~= s@);
    assert(out@.map_values(|l: Vec<char>| l@) =~= Seq::<Seq<char>>::empty());
    while start < s.len()
        invariant
            start <= s@.len(),
            lines(s@) == out@.map_values(|l: Vec<char>| l@) + lines(s@.subrange(start as int, s@.len() as int)),
        decreases s@.len() - start,
    {
        let ghost rest = s@.subrange(start as int, s@.len() as int);
        proof {
            lemma_find_char_shift(s@, '\n', start as int, 0);
            lemma_find_char_from(s@, '\n', start as int);
        }
        match find_char_from_exec(s, '\n', start) {
            Some(i) => {
                let mut line = copy_range(s, start, i);
                if line.len() > 0 && line[line.len() - 1] == '\r' {
                    line.pop();
                }
                proof {
                    assert(s@.subrange(start as int, i as int) =~= rest.subrange(0, i - start));
                    assert(rest.subrange(i - start + 1, rest.len() as int) =~= s@.subrange(i + 1, s@.len() as int));
                    assert(line@ == strip_cr(rest.subrange(0, i - start)));
                }
                let ghost before = out@.map_values(|l: Vec<char>| l@);
                out.push(line);
                assert(out@.map_values(|l: Vec<char>| l@) =~= before.push(line@));
                start = i + 1;
            },
            None => {
                let line = copy_range(s, start, s.len());
                let ghost before = out@.map_values(|l: Vec<char>| l@);
                out.push(line);
                assert(out@.map_values(|l: Vec<char>| l@) =~= before.push(line@));
                start = s.len();
                assert(s@.subrange(start as int, s@.len() as int).len() == 0);
            },
        }
    }
    assert(s@.subrange(start as int, s@.len() as int).len() == 0);
    assert(lines(s@.subrange(start as int, s@.len() as int)) =~= Seq::<Seq<char>>::empty());
    out
}

/// The first whitespace-separated token of `s` (as a range) and where the
/// text after it starts.
pub fn first_token_exec(s: &[char]) -> (r: Option<(usize, usize)>)
    ensures
        match r {
            None => first_token(s@) is None,
            Some((start, end)) => {
                &&& start <= end <= s@.len()
                &&& first_token(s@) == Some(
                    (s@.subrange(start as int, end as int), s@.subrange(end as int, s@.len() as int)),
                )
            },
        },
{
    let start = skip_whitespace(s, 0);
    proof {
        lemma_skip_ws(s@, 0);
    }
    if start >= s.len() {
        return None;
    }
    let end = skip_non_whitespace(s, start);
    proof {
        lemma_skip_non_ws(s@, start as int);
    }
    Some((start, end))
}

/// Whether two character sequences are equal.
pub fn chars_eq(a: &[char], b: &[char]) -> (r: bool)
    ensures
        r == (a@ == b@),
{
    if a.len() != b.len() {
        return false;
    }
    assert(a@.subrange(0, b@.len() as int) =~= a@);
    starts_with_exec(a, b)
}

} // verus!
