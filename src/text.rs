//! Character-level helpers on strings, each stated over the string's view.
use vstd::prelude::*;
use vstd::string::*;

verus! {

/// Index of the first occurrence of `c` at or after `from`, or `s.len()` when there is none.
pub open spec fn index_of_from(s: Seq<char>, c: char, from: int) -> int
    decreases s.len() - from,
{
    if from < 0 || from >= s.len() {
        s.len() as int
    } else if s[from] == c {
        from
    } else {
        index_of_from(s, c, from + 1)
    }
}

/// Index of the first occurrence of `c` in `s`, or `s.len()` when there is none.
pub open spec fn index_of(s: Seq<char>, c: char) -> int {
    index_of_from(s, c, 0)
}

/// Index of the last occurrence of `c` before position `end`, or -1 when there is none.
pub open spec fn last_index_before(s: Seq<char>, c: char, end: int) -> int
    decreases end,
{
    if end <= 0 || end > s.len() {
        -1
    } else if s[end - 1] == c {
        end - 1
    } else {
        last_index_before(s, c, end - 1)
    }
}

/// Index of the last occurrence of `c` in `s`, or -1 when there is none.
pub open spec fn last_index_of(s: Seq<char>, c: char) -> int {
    last_index_before(s, c, s.len() as int)
}

/// `index_of_from` is the first position at or after `from` that holds `c`.
pub proof fn lemma_index_of_from(s: Seq<char>, c: char, from: int, m: int)
    requires
        0 <= from <= m <= s.len(),
        forall|k: int| from <= k < m ==> s[k] != c,
        m == s.len() || s[m] == c,
    ensures
        index_of_from(s, c, from) == m,
    decreases m - from,
{
    if from < m {
        lemma_index_of_from(s, c, from + 1, m);
    }
}

/// `index_of_from` lies between `from` and the length, and no `c` stands before it.
pub proof fn lemma_index_of_from_bounds(s: Seq<char>, c: char, from: int)
    requires
        0 <= from <= s.len(),
    ensures
        from <= index_of_from(s, c, from) <= s.len(),
        forall|k: int| from <= k < index_of_from(s, c, from) ==> s[k] != c,
        index_of_from(s, c, from) < s.len() ==> s[index_of_from(s, c, from)] == c,
    decreases s.len() - from,
{
    if from < s.len() && s[from] != c {
        lemma_index_of_from_bounds(s, c, from + 1);
    }
}

/// `last_index_before` is the last position before `end` that holds `c`.
pub proof fn lemma_last_index_before(s: Seq<char>, c: char, end: int, m: int)
    requires
        -1 <= m < end <= s.len(),
        forall|k: int| m < k < end ==> s[k] != c,
        m == -1 || s[m] == c,
    ensures
        last_index_before(s, c, end) == m,
    decreases end,
{
    if end - 1 > m {
        lemma_last_index_before(s, c, end - 1, m);
    }
}

/// The characters of `s`, one per element.
pub fn chars_of(s: &str) -> (r: Vec<char>)
    ensures
        r@ == s@,
{
    let n = s.unicode_len();
    let mut r: Vec<char> = Vec::new();
    let mut i: usize = 0;
    while i < n
        invariant
            n == s@.len(),
            i <= n,
            r@ == s@.subrange(0, i as int),
        decreases n - i,
    {
        r.push(s.get_char(i));
        i = i + 1;
    }
    assert(r@ =~= s@);
    r
}

/// Position of the first `c` at or after `from`, or the length when there is none.
pub fn find_char_from(v: &Vec<char>, c: char, from: usize) -> (r: usize)
    requires
        from <= v@.len(),
    ensures
        r as int == index_of_from(v@, c, from as int),
        from <= r <= v@.len(),
        forall|k: int| from <= k < r ==> v@[k] != c,
        r < v@.len() ==> v@[r as int] == c,
{
    let mut i = from;
    while i < v.len() && v[i] != c
        invariant
            from <= i <= v@.len(),
            forall|k: int| from <= k < i ==> v@[k] != c,
        decreases v@.len() - i,
    {
        i = i + 1;
    }
    proof {
        lemma_index_of_from(v@, c, from as int, i as int);
    }
    i
}

/// Position of the last `c` in `v`, if any.
pub fn rfind_char(v: &Vec<char>, c: char) -> (r: Option<usize>)
    ensures
        match r {
            Some(p) => p as int == last_index_of(v@, c) && p < v@.len(),
            None => last_index_of(v@, c) == -1,
        },
        forall|k: int| 0 <= k < v@.len() && k > last_index_of(v@, c) ==> v@[k] != c,
        last_index_of(v@, c) >= 0 ==> v@[last_index_of(v@, c)] == c,
{
    let mut j = v.len();
    while j > 0 && v[j - 1] != c
        invariant
            j <= v@.len(),
            forall|k: int| j <= k < v@.len() ==> v@[k] != c,
        decreases j,
    {
        j = j - 1;
    }
    proof {
        lemma_last_index_before(v@, c, v@.len() as int, j - 1);
    }
    if j == 0 {
        None
    } else {
        Some(j - 1)
    }
}

/// The characters of `s` between `from` and `to`, as an owned string.
pub fn substring(s: &str, from: usize, to: usize) -> (r: String)
    requires
        from <= to <= s@.len(),
    ensures
        r@ == s@.subrange(from as int, to as int),
{
    String::from_str(s.substring_char(from, to))
}

} // verus!

verus! {

/// The characters with the Unicode `White_Space` property, which `str::trim` strips.
pub open spec fn is_white_space(c: char) -> bool {
    ('\u{9}' <= c && c <= '\u{d}') || c == ' ' || c == '\u{85}' || c == '\u{a0}' || c
        == '\u{1680}' || ('\u{2000}' <= c && c <= '\u{200a}') || c == '\u{2028}' || c
        == '\u{2029}' || c == '\u{202f}' || c == '\u{205f}' || c == '\u{3000}'
}

/// First position at or after `i` that holds no white space, or the length.
pub open spec fn lead_end(s: Seq<char>, i: int) -> int
    decreases s.len() - i,
{
    if 0 <= i < s.len() && is_white_space(s[i]) {
        lead_end(s, i + 1)
    } else {
        i
    }
}

/// Smallest `j'` at or before `j` such that only white space stands in `[j', j)`.
pub open spec fn trail_start(s: Seq<char>, j: int) -> int
    decreases j,
{
    if 0 < j <= s.len() && is_white_space(s[j - 1]) {
        trail_start(s, j - 1)
    } else {
        j
    }
}

/// `s` without its leading and trailing white space.
pub open spec fn trim(s: Seq<char>) -> Seq<char> {
    let a = lead_end(s, 0);
    if a >= s.len() {
        Seq::empty()
    } else {
        s.subrange(a, trail_start(s, s.len() as int))
    }
}

proof fn lemma_lead_end(s: Seq<char>, i: int, m: int)
    requires
        0 <= i <= m <= s.len(),
        forall|k: int| i <= k < m ==> is_white_space(#[trigger] s[k]),
        m == s.len() || !is_white_space(s[m]),
    ensures
        lead_end(s, i) == m,
    decreases m - i,
{
    if i < m {
        lemma_lead_end(s, i + 1, m);
    }
}

proof fn lemma_trail_start(s: Seq<char>, j: int, m: int)
    requires
        0 <= m <= j <= s.len(),
        forall|k: int| m <= k < j ==> is_white_space(#[trigger] s[k]),
        m == 0 || !is_white_space(s[m - 1]),
    ensures
        trail_start(s, j) == m,
    decreases j,
{
    if m < j {
        lemma_trail_start(s, j - 1, m);
    }
}

fn white_space(c: char) -> (r: bool)
    ensures
        r == is_white_space(c),
{
    ('\u{9}' <= c && c <= '\u{d}') || c == ' ' || c == '\u{85}' || c == '\u{a0}' || c
        == '\u{1680}' || ('\u{2000}' <= c && c <= '\u{200a}') || c == '\u{2028}' || c
        == '\u{2029}' || c == '\u{202f}' || c == '\u{205f}' || c == '\u{3000}'
}

/// The characters of `s` between `from` and `to`, without leading and trailing white space.
pub fn trimmed_substring(s: &str, v: &Vec<char>, from: usize, to: usize) -> (r: String)
    requires
        v@ == s@,
        from <= to <= s@.len(),
    ensures
        r@ == trim(s@.subrange(from as int, to as int)),
{
    let ghost t = s@.subrange(from as int, to as int);
    let mut a = from;
    while a < to && white_space(v[a])
        invariant
            from <= a <= to <= v@.len(),
            forall|k: int| from <= k < a ==> is_white_space(#[trigger] v@[k]),
        decreases to - a,
    {
        a = a + 1;
    }
    proof {
        assert forall|k: int| 0 <= k < a - from implies is_white_space(#[trigger] t[k]) by {
            assert(t[k] == v@[from + k]);
        }
        lemma_lead_end(t, 0, a - from);
    }
    if a == to {
        return String::new();
    }
    let mut b = to;
    while b > a && white_space(v[b - 1])
        invariant
            from <= a < b <= to <= v@.len(),
            !is_white_space(v@[a as int]),
            forall|k: int| b <= k < to ==> is_white_space(#[trigger] v@[k]),
        decreases b,
    {
        b = b - 1;
    }
    proof {
        assert forall|k: int| b - from <= k < to - from implies is_white_space(
            #[trigger] t[k],
        ) by {
            assert(t[k] == v@[from + k]);
        }
        assert(t[b - from - 1] == v@[b - 1]);
        lemma_trail_start(t, t.len() as int, b - from);
        assert(t.subrange(a - from, b - from) =~= s@.subrange(a as int, b as int));
    }
    substring(s, a, b)
}

} // verus!
