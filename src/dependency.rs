//! Resolution of a free-form dependency reference into a canonical git remote.
//!
//! A reference is either a remote address (`git@host.tld:owner/repo`,
//! `git+https://host.tld/owner/repo`, `https://host.tld/owner/repo`, or a bare
//! `host.tld/owner/repo`) or a GitHub shorthand `owner/repo`; either may carry a
//! ref after `@`.
use vstd::prelude::*;
use vstd::string::*;
use crate::error::ParseError;
use crate::text::{
    chars_of, find_char_from, index_of_from, last_index_of, lemma_index_of_from,
    lemma_last_index_before, rfind_char, substring,
};

verus! {

/// A character of a host or top-level-domain label: an ASCII letter, an ASCII digit or `-`.
pub open spec fn is_label_char(c: char) -> bool {
    ('a' <= c && c <= 'z') || ('A' <= c && c <= 'Z') || ('0' <= c && c <= '9') || c == '-'
}

/// A character of the repository part of a shorthand: a label character, `_` or `.`.
pub open spec fn is_repo_char(c: char) -> bool {
    is_label_char(c) || c == '_' || c == '.'
}

/// The scheme alternatives, in the order in which they are tried; the last is no scheme.
pub open spec fn scheme(k: int) -> Seq<char> {
    if k == 0 {
        seq!['g', 'i', 't', '@']
    } else if k == 1 {
        seq!['g', 'i', 't', '+', 'h', 't', 't', 'p', 's', ':', '/', '/']
    } else if k == 2 {
        seq!['h', 't', 't', 'p', 's', ':', '/', '/']
    } else {
        seq![]
    }
}

/// End of the longest run of label characters that starts at `j`.
pub open spec fn label_end(s: Seq<char>, j: int) -> int
    decreases s.len() - j,
{
    if 0 <= j < s.len() && is_label_char(s[j]) {
        label_end(s, j + 1)
    } else {
        j
    }
}

/// Scheme `k` is written at position `i`.
pub open spec fn scheme_at(s: Seq<char>, i: int, k: int) -> bool {
    0 <= i && i + scheme(k).len() <= s.len() && s.subrange(i, i + scheme(k).len()) == scheme(k)
}

/// At `j` stand a host label, `.`, a top-level-domain label and a `/` or `:` separator.
pub open spec fn host_at(s: Seq<char>, j: int) -> bool {
    let h = label_end(s, j);
    let t = label_end(s, h + 1);
    &&& j < h < s.len()
    &&& s[h] == '.'
    &&& h + 1 < t < s.len()
    &&& (s[t] == '/' || s[t] == ':')
}

/// The remote-address prefix matches at `i` with scheme alternative `k`.
pub open spec fn alt_at(s: Seq<char>, i: int, k: int) -> bool {
    scheme_at(s, i, k) && host_at(s, i + scheme(k).len())
}

/// The first scheme alternative with which the prefix matches at `i`.
pub open spec fn first_alt(s: Seq<char>, i: int) -> Option<int> {
    if alt_at(s, i, 0) {
        Some(0)
    } else if alt_at(s, i, 1) {
        Some(1)
    } else if alt_at(s, i, 2) {
        Some(2)
    } else if alt_at(s, i, 3) {
        Some(3)
    } else {
        None
    }
}

/// The scheme alternative with which the remote-address prefix matches at the start of `s`.
pub open spec fn prefix_match(s: Seq<char>) -> Option<int> {
    first_alt(s, 0)
}

/// Somewhere in `s` a label character is followed by `/` and a repository character.
///
/// Letters and digits here are ASCII ones only.
pub open spec fn has_shorthand_shape(s: Seq<char>) -> bool {
    exists|i: int|
        0 <= i && i + 2 < s.len() && is_label_char(#[trigger] s[i]) && s[i + 1] == '/'
            && is_repo_char(s[i + 2])
}

/// The address that a reference is rewritten to, ref suffix included, or `None`
/// when it is neither a remote address nor a shorthand.
pub open spec fn rewritten(s: Seq<char>) -> Option<Seq<char>> {
    match prefix_match(s) {
        Some(k) => {
            let j = scheme(k).len() as int;
            let h = label_end(s, j);
            let t = label_end(s, h + 1);
            Some(
                "https://"@ + s.subrange(j, h) + "."@ + s.subrange(h + 1, t) + "/"@
                    + s.subrange(t + 1, s.len() as int),
            )
        },
        None => if has_shorthand_shape(s) {
            Some("https://github.com/"@ + s)
        } else {
            None
        },
    }
}

/// The address part: everything before the first `@`.
pub open spec fn url_part(w: Seq<char>) -> Seq<char> {
    w.subrange(0, index_of_from(w, '@', 0))
}

/// The ref part: what stands between the first `@` and the next one (or the end).
pub open spec fn tag_part(w: Seq<char>) -> Option<Seq<char>> {
    let p = index_of_from(w, '@', 0);
    if p < w.len() {
        Some(w.subrange(p + 1, index_of_from(w, '@', p + 1)))
    } else {
        None
    }
}

/// The last `/`-separated segment.
pub open spec fn last_segment(u: Seq<char>) -> Seq<char> {
    u.subrange(last_index_of(u, '/') + 1, u.len() as int)
}

/// The resolved `(name, url, ref)` of a reference, or `None` when it is refused.
pub open spec fn resolve(s: Seq<char>) -> Option<(Seq<char>, Seq<char>, Option<Seq<char>>)> {
    match rewritten(s) {
        Some(w) => {
            let u = url_part(w);
            let n = last_segment(u);
            if n.len() == 0 {
                None
            } else {
                Some((n, u, tag_part(w)))
            }
        },
        None => None,
    }
}

/// A git dependency, installed as a submodule.
#[derive(Clone, Debug)]
pub struct Dependency {
    /// The name of the dependency: the last segment of its url.
    pub name: String,
    /// The url of the git repository, without a ref.
    pub url: String,
    /// A branch, tag or commit to check out; `None` for the default branch.
    pub tag: Option<String>,
}

/// The view of an optional string.
pub open spec fn opt_view(o: Option<String>) -> Option<Seq<char>> {
    match o {
        Some(t) => Some(t@),
        None => None,
    }
}

impl View for Dependency {
    type V = (Seq<char>, Seq<char>, Option<Seq<char>>);

    open spec fn view(&self) -> Self::V {
        (self.name@, self.url@, opt_view(self.tag))
    }
}

proof fn lemma_label_end_stop(s: Seq<char>, j: int, m: int)
    requires
        0 <= j <= m <= s.len(),
        forall|k: int| j <= k < m ==> is_label_char(#[trigger] s[k]),
        m == s.len() || !is_label_char(s[m]),
    ensures
        label_end(s, j) == m,
    decreases m - j,
{
    if j < m {
        lemma_label_end_stop(s, j + 1, m);
    }
}

fn label_char(c: char) -> (r: bool)
    ensures
        r == is_label_char(c),
{
    ('a' <= c && c <= 'z') || ('A' <= c && c <= 'Z') || ('0' <= c && c <= '9') || c == '-'
}

/// End of the run of label characters that starts at `j`.
fn scan_label(v: &Vec<char>, j: usize) -> (r: usize)
    requires
        j <= v@.len(),
    ensures
        r as int == label_end(v@, j as int),
        j <= r <= v@.len(),
{
    let mut m = j;
    while m < v.len() && label_char(v[m])
        invariant
            j <= m <= v@.len(),
            forall|k: int| j <= k < m ==> is_label_char(#[trigger] v@[k]),
        decreases v@.len() - m,
    {
        m = m + 1;
    }
    proof {
        lemma_label_end_stop(v@, j as int, m as int);
    }
    m
}

/// The host and separator positions of a remote address at `j`, if one stands there.
fn scan_host(v: &Vec<char>, j: usize) -> (r: Option<(usize, usize)>)
    requires
        j <= v@.len(),
    ensures
        r is Some <==> host_at(v@, j as int),
        r matches Some((h, t)) ==> h == label_end(v@, j as int) && t == label_end(
            v@,
            h + 1,
        ),
{
    let h = scan_label(v, j);
    if h == j || h >= v.len() || v[h] != '.' {
        return None;
    }
    let t = scan_label(v, h + 1);
    if t == h + 1 || t >= v.len() || (v[t] != '/' && v[t] != ':') {
        return None;
    }
    Some((h, t))
}

/// The characters of scheme alternative `k`.
fn scheme_chars(k: usize) -> (r: Vec<char>)
    requires
        k < 4,
    ensures
        r@ == scheme(k as int),
{
    if k == 0 {
        let r = vec!['g', 'i', 't', '@'];
        assert(r@ =~= scheme(0));
        r
    } else if k == 1 {
        let r = vec!['g', 'i', 't', '+', 'h', 't', 't', 'p', 's', ':', '/', '/'];
        assert(r@ =~= scheme(1));
        r
    } else if k == 2 {
        let r = vec!['h', 't', 't', 'p', 's', ':', '/', '/'];
        assert(r@ =~= scheme(2));
        r
    } else {
        let r: Vec<char> = Vec::new();
        assert(r@ =~= scheme(3));
        r
    }
}

/// Whether scheme alternative `k` is written at `i`.
fn scan_scheme(v: &Vec<char>, i: usize, k: usize) -> (r: bool)
    requires
        i <= v@.len(),
        k < 4,
    ensures
        r == scheme_at(v@, i as int, k as int),
{
    let p = scheme_chars(k);
    let n = v.len();
    if p.len() > n - i {
        return false;
    }
    let mut m: usize = 0;
    while m < p.len()
        invariant
            n == v@.len(),
            p@ == scheme(k as int),
            i <= v@.len(),
            i + p@.len() <= v@.len(),
            m <= p@.len(),
            forall|q: int| 0 <= q < m ==> v@[i + q] == p@[q],
        decreases p@.len() - m,
    {
        if v[i + m] != p[m] {
            assert(v@.subrange(i as int, i + p@.len())[m as int] != p@[m as int]);
            return false;
        }
        m = m + 1;
    }
    assert(v@.subrange(i as int, i + p@.len()) =~= p@);
    true
}

/// The first alternative with which the prefix matches at `i`, and the positions
/// of its host's end and separator.
fn scan_alt(v: &Vec<char>, i: usize) -> (r: Option<(usize, usize, usize)>)
    requires
        i <= v@.len(),
    ensures
        match r {
            Some((k, h, t)) => first_alt(v@, i as int) == Some(k as int) && k < 4 && h
                == label_end(v@, i + scheme(k as int).len()) && t == label_end(v@, h + 1)
                && i + scheme(k as int).len() < h < t < v@.len(),
            None => first_alt(v@, i as int) is None,
        },
{
    let n = v.len();
    let mut k: usize = 0;
    while k < 4
        invariant
            n == v@.len(),
            i <= v@.len(),
            k <= 4,
            forall|q: int| 0 <= q < k ==> !alt_at(v@, i as int, q),
        decreases 4 - k,
    {
        if scan_scheme(v, i, k) {
            let p = scheme_chars(k);
            assert(scheme_at(v@, i as int, k as int));
            assert(i + p@.len() <= v@.len());
            if let Some((h, t)) = scan_host(v, i + p.len()) {
                return Some((k, h, t));
            }
        }
        k = k + 1;
    }
    None
}

/// Whether `s` holds a label character, `/` and a repository character in a row.
fn scan_shorthand(v: &Vec<char>) -> (r: bool)
    ensures
        r == has_shorthand_shape(v@),
{
    let mut i: usize = 0;
    while i < v.len() && v.len() - i > 2
        invariant
            forall|q: int|
                0 <= q < i && q + 2 < v@.len() ==> !(is_label_char(#[trigger] v@[q]) && v@[q
                    + 1] == '/' && is_repo_char(v@[q + 2])),
        decreases v@.len() - i,
    {
        let a = v[i];
        let c = v[i + 2];
        if label_char(a) && v[i + 1] == '/' && (label_char(c) || c == '_' || c == '.') {
            return true;
        }
        i = i + 1;
    }
    false
}

/// The reference rewritten to an `https://` address, ref suffix included.
fn rewrite(s: &str) -> (r: Option<String>)
    ensures
        opt_view(r) == rewritten(s@),
{
    let v = chars_of(s);
    let n = v.len();
    match scan_alt(&v, 0) {
        Some((k, h, t)) => {
            let j = scheme_chars(k).len();
            let mut w = String::from_str("https://");
            w.append(substring(s, j, h).as_str());
            w.append(".");
            w.append(substring(s, h + 1, t).as_str());
            w.append("/");
            w.append(substring(s, t + 1, n).as_str());
            Some(w)
        },
        None => {
            if scan_shorthand(&v) {
                let mut w = String::from_str("https://github.com/");
                w.append(s);
                Some(w)
            } else {
                None
            }
        },
    }
}

impl Dependency {
    /// Resolves a dependency reference into its name, canonical url and ref.
    pub fn from_str(dependency: &str) -> (r: Result<Dependency, ParseError>)
        ensures
            match r {
                Ok(d) => resolve(dependency@) == Some(d@),
                Err(ParseError::InvalidRepoShorthand(x)) => rewritten(dependency@) is None
                    && x@ == dependency@,
                Err(ParseError::EmptyName) => rewritten(dependency@) is Some && resolve(
                    dependency@,
                ) is None,
                Err(_) => false,
            },
    {
        let w = match rewrite(dependency) {
            Some(w) => w,
            None => {
                return Err(ParseError::InvalidRepoShorthand(String::from_str(dependency)));
            },
        };
        let wv = chars_of(w.as_str());
        let p = find_char_from(&wv, '@', 0);
        let url = substring(w.as_str(), 0, p);
        let tag = if p < wv.len() {
            let q = find_char_from(&wv, '@', p + 1);
            Some(substring(w.as_str(), p + 1, q))
        } else {
            None
        };
        let uv = chars_of(url.as_str());
        let start = match rfind_char(&uv, '/') {
            Some(b) => b + 1,
            None => 0,
        };
        if start == uv.len() {
            return Err(ParseError::EmptyName);
        }
        let name = substring(url.as_str(), start, uv.len());
        Ok(Dependency { name, url, tag })
    }
}


/// A reference that starts with a run of label characters ended by `/` has no
/// remote-address prefix.
proof fn lemma_shorthand_no_prefix(owner: Seq<char>, rest: Seq<char>)
    requires
        owner.len() > 0,
        forall|k: int| 0 <= k < owner.len() ==> is_label_char(#[trigger] owner[k]),
    ensures
        prefix_match(owner + seq!['/'] + rest) is None,
{
    let s = owner + seq!['/'] + rest;
    let o = owner.len() as int;
    assert forall|q: int| 0 <= q < o implies is_label_char(#[trigger] s[q]) by {
        assert(s[q] == owner[q]);
    }
    assert(s[o] == '/');
    lemma_label_end_stop(s, 0, o);
    assert forall|k: int| 0 <= k < 3 implies !scheme_at(s, 0, k) by {
        if scheme_at(s, 0, k) {
            let m: int = if k == 2 {
                5
            } else {
                3
            };
            let w = s.subrange(0, scheme(k).len() as int);
            if o <= m {
                assert(w[o] == s[o]);
                assert(scheme(k)[o] != '/');
            } else {
                assert(w[m] == s[m]);
                assert(!is_label_char(scheme(k)[m]));
            }
        }
    }
    assert(!host_at(s, 0));
}

/// An address without `@` that ends in `/` and a non-empty, `/`-free `repo` is its own
/// address part, carries no ref, and has `repo` as its last segment.
proof fn lemma_resolve_of_rewritten(w: Seq<char>, repo: Seq<char>)
    requires
        repo.len() > 0,
        repo.len() < w.len(),
        w.subrange(w.len() - repo.len(), w.len() as int) == repo,
        w[w.len() - repo.len() - 1] == '/',
        forall|k: int| 0 <= k < repo.len() ==> #[trigger] repo[k] != '/',
        forall|k: int| 0 <= k < w.len() ==> #[trigger] w[k] != '@',
    ensures
        url_part(w) == w,
        tag_part(w) is None,
        last_segment(w) == repo,
{
    lemma_index_of_from(w, '@', 0, w.len() as int);
    assert(w.subrange(0, w.len() as int) =~= w);
    let m = w.len() - repo.len() - 1;
    assert forall|k: int| m < k < w.len() implies w[k] != '/' by {
        assert(w[k] == w.subrange(w.len() - repo.len(), w.len() as int)[k - (m + 1)]);
    }
    lemma_last_index_before(w, '/', w.len() as int, m);
}

/// An `owner/repo` shorthand resolves to `https://github.com/owner/repo`, named
/// `repo`, with no ref.
pub proof fn lemma_shorthand_resolves(owner: Seq<char>, repo: Seq<char>)
    requires
        owner.len() > 0,
        repo.len() > 0,
        forall|k: int| 0 <= k < owner.len() ==> is_label_char(#[trigger] owner[k]),
        forall|k: int| 0 <= k < repo.len() ==> is_repo_char(#[trigger] repo[k]),
    ensures
        resolve(owner + seq!['/'] + repo) == Some(
            (repo, "https://github.com/"@ + owner + seq!['/'] + repo, None::<Seq<char>>),
        ),
{
    let s = owner + seq!['/'] + repo;
    let o = owner.len() as int;
    assert forall|k: int| 0 <= k < s.len() && k != o implies s[k] != '/' && s[k] != ':' && s[k]
        != '@' by {
        if k < o {
            assert(s[k] == owner[k]);
        } else {
            assert(s[k] == repo[k - o - 1]);
        }
    }
    lemma_shorthand_no_prefix(owner, repo);
    assert(is_label_char(s[o - 1]) && s[o - 1 + 1] == '/' && is_repo_char(s[o - 1 + 2]));
    assert(has_shorthand_shape(s));
    let g = "https://github.com/"@;
    reveal_strlit("https://github.com/");
    reveal_strlit("https://");
    let w = g + s;
    assert(w =~= g + owner + seq!['/'] + repo);
    assert forall|k: int| 0 <= k < w.len() implies #[trigger] w[k] != '@' by {
        if k >= g.len() {
            assert(w[k] == s[k - g.len()]);
        }
    }
    assert forall|k: int| 0 <= k < repo.len() implies #[trigger] repo[k] != '/' by {
        assert(s[o + 1 + k] == repo[k]);
    }
    assert(w.subrange(w.len() - repo.len(), w.len() as int) =~= repo);
    assert(w[w.len() - repo.len() - 1] == s[o]);
    lemma_resolve_of_rewritten(w, repo);
}


/// An `owner/repo@x` shorthand resolves to `https://github.com/owner/repo`, named
/// `repo`, with ref `x`, for any non-empty `x` without `@`.
pub proof fn lemma_shorthand_with_ref_resolves(owner: Seq<char>, repo: Seq<char>, x: Seq<char>)
    requires
        owner.len() > 0,
        repo.len() > 0,
        x.len() > 0,
        forall|k: int| 0 <= k < owner.len() ==> is_label_char(#[trigger] owner[k]),
        forall|k: int| 0 <= k < repo.len() ==> is_repo_char(#[trigger] repo[k]),
        forall|k: int| 0 <= k < x.len() ==> #[trigger] x[k] != '@',
    ensures
        resolve(owner + seq!['/'] + repo + seq!['@'] + x) == Some(
            (repo, "https://github.com/"@ + owner + seq!['/'] + repo, Some(x)),
        ),
{
    let s = owner + seq!['/'] + repo + seq!['@'] + x;
    let o = owner.len() as int;
    let a = o + 1 + repo.len();
    lemma_shorthand_no_prefix(owner, repo + seq!['@'] + x);
    assert(owner + seq!['/'] + (repo + seq!['@'] + x) =~= s);
    assert(is_label_char(s[o - 1]) && s[o - 1 + 1] == '/' && is_repo_char(s[o - 1 + 2]));
    assert(has_shorthand_shape(s));
    let g = "https://github.com/"@;
    reveal_strlit("https://github.com/");
    let w = g + s;
    let p = g.len() + a;
    assert forall|k: int| 0 <= k < p implies #[trigger] w[k] != '@' by {
        if k >= g.len() {
            assert(w[k] == s[k - g.len()]);
            if k - g.len() < o {
                assert(s[k - g.len()] == owner[k - g.len()]);
            } else if k - g.len() > o {
                assert(s[k - g.len()] == repo[k - g.len() - o - 1]);
            }
        }
    }
    assert(w[p] == '@');
    lemma_index_of_from(w, '@', 0, p);
    assert forall|k: int| p + 1 <= k < w.len() implies #[trigger] w[k] != '@' by {
        assert(w[k] == x[k - p - 1]);
    }
    lemma_index_of_from(w, '@', p + 1, w.len() as int);
    assert(w.subrange(p + 1, w.len() as int) =~= x);
    let u = w.subrange(0, p);
    assert(u =~= g + owner + seq!['/'] + repo);
    assert forall|k: int| 0 <= k < repo.len() implies #[trigger] repo[k] != '/' by {
        assert(is_repo_char(repo[k]));
    }
    assert forall|k: int| 0 <= k < u.len() implies #[trigger] u[k] != '@' by {
        assert(u[k] == w[k]);
    }
    assert(u.subrange(u.len() - repo.len(), u.len() as int) =~= repo);
    assert(u[u.len() - repo.len() - 1] == '/');
    lemma_resolve_of_rewritten(u, repo);
}

proof fn lemma_concat_no_char(a: Seq<char>, b: Seq<char>, c: char)
    requires
        forall|q: int| 0 <= q < a.len() ==> #[trigger] a[q] != c,
        forall|q: int| 0 <= q < b.len() ==> #[trigger] b[q] != c,
    ensures
        forall|q: int| 0 <= q < (a + b).len() ==> #[trigger] (a + b)[q] != c,
{
    assert forall|q: int| 0 <= q < (a + b).len() implies #[trigger] (a + b)[q] != c by {
        if q >= a.len() {
            assert((a + b)[q] == b[q - a.len()]);
        }
    }
}

/// In a remote address, the prefix matches at the start with alternative `k`, and
/// its host and top-level domain are the given labels.
proof fn lemma_remote_match(
    k: int,
    host: Seq<char>,
    tld: Seq<char>,
    sep: char,
    rest: Seq<char>,
)
    requires
        0 <= k < 3,
        sep == '/' || sep == ':',
        host.len() > 0,
        tld.len() > 0,
        forall|q: int| 0 <= q < host.len() ==> is_label_char(#[trigger] host[q]),
        forall|q: int| 0 <= q < tld.len() ==> is_label_char(#[trigger] tld[q]),
    ensures
        ({
            let s = scheme(k) + host + seq!['.'] + tld + seq![sep] + rest;
            let j = scheme(k).len() as int;
            let h = j + host.len();
            let t = h + 1 + tld.len();
            &&& prefix_match(s) == Some(k)
            &&& label_end(s, j) == h
            &&& label_end(s, h + 1) == t
            &&& s.subrange(j, h) == host
            &&& s.subrange(h + 1, t) == tld
            &&& s.subrange(t + 1, s.len() as int) == rest
        }),
{
    let s = scheme(k) + host + seq!['.'] + tld + seq![sep] + rest;
    let j = scheme(k).len() as int;
    let h = j + host.len();
    let t = h + 1 + tld.len();
    assert(s.subrange(0, j) =~= scheme(k));
    assert(scheme_at(s, 0, k));
    assert forall|q: int| j <= q < h implies is_label_char(#[trigger] s[q]) by {
        assert(s[q] == host[q - j]);
    }
    assert(s[h] == '.');
    lemma_label_end_stop(s, j, h);
    assert forall|q: int| h + 1 <= q < t implies is_label_char(#[trigger] s[q]) by {
        assert(s[q] == tld[q - h - 1]);
    }
    assert(s[t] == sep);
    lemma_label_end_stop(s, h + 1, t);
    assert(host_at(s, j));
    if k == 1 {
        assert(s.subrange(0, 4)[3] != scheme(0)[3]);
    }
    if k == 2 {
        assert(s.subrange(0, 4)[0] != scheme(0)[0]);
        assert(s.subrange(0, 12)[0] != scheme(1)[0]);
    }
    assert(first_alt(s, 0) == Some(k));
    assert(s.subrange(j, h) =~= host);
    assert(s.subrange(h + 1, t) =~= tld);
    assert(s.subrange(t + 1, s.len() as int) =~= rest);
}

/// Every remote-address form of a repository, `git@host.tld:owner/repo`,
/// `git+https://host.tld/owner/repo` or `https://host.tld/owner/repo` (with either
/// separator), resolves to `https://host.tld/owner/repo`, named `repo`, with no ref.
pub proof fn lemma_remote_resolves(
    k: int,
    host: Seq<char>,
    tld: Seq<char>,
    sep: char,
    owner: Seq<char>,
    repo: Seq<char>,
)
    requires
        0 <= k < 3,
        sep == '/' || sep == ':',
        host.len() > 0,
        tld.len() > 0,
        forall|q: int| 0 <= q < host.len() ==> is_label_char(#[trigger] host[q]),
        forall|q: int| 0 <= q < tld.len() ==> is_label_char(#[trigger] tld[q]),
        repo.len() > 0,
        forall|q: int| 0 <= q < owner.len() ==> #[trigger] owner[q] != '@',
        forall|q: int| 0 <= q < repo.len() ==> #[trigger] repo[q] != '@' && repo[q] != '/',
    ensures
        resolve(scheme(k) + host + seq!['.'] + tld + seq![sep] + owner + seq!['/'] + repo)
            == Some(
            (
                repo,
                "https://"@ + host + seq!['.'] + tld + seq!['/'] + owner + seq!['/'] + repo,
                None::<Seq<char>>,
            ),
        ),
{
    let rest = owner + seq!['/'] + repo;
    let s = scheme(k) + host + seq!['.'] + tld + seq![sep] + rest;
    assert(s =~= scheme(k) + host + seq!['.'] + tld + seq![sep] + owner + seq!['/'] + repo);
    lemma_remote_match(k, host, tld, sep, rest);
    reveal_strlit("https://");
    reveal_strlit(".");
    reveal_strlit("/");
    let u = "https://"@ + host + seq!['.'] + tld + seq!['/'] + owner + seq!['/'] + repo;
    assert(rewritten(s) == Some(u)) by {
        let j = scheme(k).len() as int;
        let h = j + host.len();
        let t = h + 1 + tld.len();
        assert("https://"@ + s.subrange(j, h) + "."@ + s.subrange(h + 1, t) + "/"@
            + s.subrange(t + 1, s.len() as int) =~= u);
    }
    assert forall|q: int| 0 <= q < host.len() implies #[trigger] host[q] != '@' by {
        assert(is_label_char(host[q]));
    }
    assert forall|q: int| 0 <= q < tld.len() implies #[trigger] tld[q] != '@' by {
        assert(is_label_char(tld[q]));
    }
    let lead = "https://"@;
    lemma_concat_no_char(lead, host, '@');
    lemma_concat_no_char(lead + host, seq!['.'], '@');
    lemma_concat_no_char(lead + host + seq!['.'], tld, '@');
    lemma_concat_no_char(lead + host + seq!['.'] + tld, seq!['/'], '@');
    lemma_concat_no_char(lead + host + seq!['.'] + tld + seq!['/'], owner, '@');
    lemma_concat_no_char(lead + host + seq!['.'] + tld + seq!['/'] + owner, seq!['/'], '@');
    lemma_concat_no_char(
        lead + host + seq!['.'] + tld + seq!['/'] + owner + seq!['/'],
        repo,
        '@',
    );
    assert(u.subrange(u.len() - repo.len(), u.len() as int) =~= repo);
    assert(u[u.len() - repo.len() - 1] == '/');
    lemma_resolve_of_rewritten(u, repo);
}

/// A reference without `/` in which no remote address occurs is refused.
pub proof fn lemma_no_slash_refused(s: Seq<char>)
    requires
        forall|q: int| 0 <= q < s.len() ==> #[trigger] s[q] != '/',
        prefix_match(s) is None,
    ensures
        rewritten(s) is None,
        resolve(s) is None,
{
    if has_shorthand_shape(s) {
        let i = choose|i: int|
            0 <= i && i + 2 < s.len() && is_label_char(#[trigger] s[i]) && s[i + 1] == '/'
                && is_repo_char(s[i + 2]);
        assert(s[i + 1] != '/');
    }
}

proof fn lemma_label_run(s: Seq<char>, j: int)
    requires
        0 <= j <= s.len(),
    ensures
        j <= label_end(s, j) <= s.len(),
        forall|q: int| j <= q < label_end(s, j) ==> is_label_char(#[trigger] s[q]),
    decreases s.len() - j,
{
    if j < s.len() && is_label_char(s[j]) {
        lemma_label_run(s, j + 1);
    }
}

/// Every rewritten reference is `"https://" + host + "." + tld + "/" + rest` for
/// non-empty labels `host` and `tld`.
proof fn lemma_rewritten_shape(s: Seq<char>) -> (r: (Seq<char>, Seq<char>, Seq<char>))
    requires
        rewritten(s) is Some,
    ensures
        r.0.len() > 0,
        r.1.len() > 0,
        forall|q: int| 0 <= q < r.0.len() ==> is_label_char(#[trigger] r.0[q]),
        forall|q: int| 0 <= q < r.1.len() ==> is_label_char(#[trigger] r.1[q]),
        rewritten(s)->0 == "https://"@ + r.0 + seq!['.'] + r.1 + seq!['/'] + r.2,
{
    reveal_strlit(".");
    reveal_strlit("/");
    match prefix_match(s) {
        Some(k) => {
            let j = scheme(k).len() as int;
            assert(alt_at(s, 0, k));
            let h = label_end(s, j);
            let t = label_end(s, h + 1);
            lemma_label_run(s, j);
            lemma_label_run(s, h + 1);
            let host = s.subrange(j, h);
            let tld = s.subrange(h + 1, t);
            let rest = s.subrange(t + 1, s.len() as int);
            assert forall|q: int| 0 <= q < host.len() implies is_label_char(#[trigger] host[q]) by {
                assert(host[q] == s[j + q]);
            }
            assert forall|q: int| 0 <= q < tld.len() implies is_label_char(#[trigger] tld[q]) by {
                assert(tld[q] == s[h + 1 + q]);
            }
            assert(rewritten(s)->0 =~= "https://"@ + host + seq!['.'] + tld + seq!['/'] + rest);
            (host, tld, rest)
        },
        None => {
            reveal_strlit("https://github.com/");
            reveal_strlit("https://");
            let host = seq!['g', 'i', 't', 'h', 'u', 'b'];
            let tld = seq!['c', 'o', 'm'];
            assert(rewritten(s)->0 =~= "https://"@ + host + seq!['.'] + tld + seq!['/'] + s);
            (host, tld, s)
        },
    }
}

/// Resolving the url of a resolved reference again gives the same name and url, and no ref.
pub proof fn lemma_resolve_idempotent(s: Seq<char>)
    requires
        resolve(s) is Some,
    ensures
        ({
            let (name, url, _tag) = resolve(s)->0;
            resolve(url) == Some((name, url, None::<Seq<char>>))
        }),
{
    let (host, tld, rest) = lemma_rewritten_shape(s);
    let w = rewritten(s)->0;
    let pre = "https://"@ + host + seq!['.'] + tld + seq!['/'];
    reveal_strlit("https://");
    assert forall|q: int| 0 <= q < host.len() implies #[trigger] host[q] != '@' by {
        assert(is_label_char(host[q]));
    }
    assert forall|q: int| 0 <= q < tld.len() implies #[trigger] tld[q] != '@' by {
        assert(is_label_char(tld[q]));
    }
    lemma_concat_no_char("https://"@, host, '@');
    lemma_concat_no_char("https://"@ + host, seq!['.'], '@');
    lemma_concat_no_char("https://"@ + host + seq!['.'], tld, '@');
    lemma_concat_no_char("https://"@ + host + seq!['.'] + tld, seq!['/'], '@');
    let p = index_of_from(w, '@', 0);
    crate::text::lemma_index_of_from_bounds(w, '@', 0);
    assert(w.subrange(0, pre.len() as int) =~= pre);
    if p < pre.len() {
        assert(w[p] == pre[p]);
    }
    let u = url_part(w);
    let r2 = rest.subrange(0, p - pre.len());
    assert(u =~= pre + r2);
    assert(u =~= scheme(2) + host + seq!['.'] + tld + seq!['/'] + r2);
    lemma_remote_match(2, host, tld, '/', r2);
    reveal_strlit(".");
    reveal_strlit("/");
    assert(rewritten(u) == Some(u)) by {
        let j = scheme(2).len() as int;
        let h = j + host.len();
        let t = h + 1 + tld.len();
        assert("https://"@ + u.subrange(j, h) + "."@ + u.subrange(h + 1, t) + "/"@
            + u.subrange(t + 1, u.len() as int) =~= u);
    }
    assert forall|q: int| 0 <= q < u.len() implies #[trigger] u[q] != '@' by {
        assert(u[q] == w[q]);
    }
    lemma_index_of_from(u, '@', 0, u.len() as int);
    assert(u.subrange(0, u.len() as int) =~= u);
}

impl std::str::FromStr for Dependency {
    type Err = ParseError;

    fn from_str(s: &str) -> Result<Dependency, ParseError> {
        Dependency::from_str(s)
    }
}

} // verus!
