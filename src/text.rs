//! Character-level helpers on strings, each stated over the string's view.
use vstd::prelude::*;

verus! {

/// Whether `s` begins with `p`.
pub open spec fn has_prefix(s: Seq<char>, p: Seq<char>) -> bool {
    p.len() <= s.len() && s.subrange(0, p.len() as int) == p
}

/// The first position at or after `from` that holds `c`, if any.
pub open spec fn first_index_from(s: Seq<char>, c: char, from: int) -> Option<int>
    decreases s.len() - from,
{
    if from < 0 || from >= s.len() {
        None
    } else if s[from] == c {
        Some(from)
    } else {
        first_index_from(s, c, from + 1)
    }
}

/// Whether a character survives cleaning: an ASCII letter or one of `/ . _ -`.
pub open spec fn is_kept(c: char) -> bool {
    ('a' <= c && c <= 'z') || ('A' <= c && c <= 'Z') || is_edge_punct(c)
}

/// The punctuation that cleaning keeps inside a name and trims at its ends.
pub open spec fn is_edge_punct(c: char) -> bool {
    c == '/' || c == '.' || c == '_' || c == '-'
}

/// `s` with every character that is not kept removed.
pub open spec fn kept_chars(s: Seq<char>) -> Seq<char>
    decreases s.len(),
{
    if s.len() == 0 {
        Seq::empty()
    } else if is_kept(s.last()) {
        kept_chars(s.drop_last()).push(s.last())
    } else {
        kept_chars(s.drop_last())
    }
}

/// `s` without its leading punctuation.
pub open spec fn trim_front(s: Seq<char>) -> Seq<char>
    decreases s.len(),
{
    if s.len() > 0 && is_edge_punct(s[0]) {
        trim_front(s.drop_first())
    } else {
        s
    }
}

/// `s` without its trailing punctuation.
pub open spec fn trim_back(s: Seq<char>) -> Seq<char>
    decreases s.len(),
{
    if s.len() > 0 && is_edge_punct(s.last()) {
        trim_back(s.drop_last())
    } else {
        s
    }
}

/// `s` without punctuation at either end.
pub open spec fn trim_punct(s: Seq<char>) -> Seq<char> {
    trim_back(trim_front(s))
}

pub fn starts_with(s: &str, p: &str) -> (r: bool)
    ensures
        r == has_prefix(s@, p@),
{
    let n = s.unicode_len();
    let m = p.unicode_len();
    if m > n {
        return false;
    }
    let mut i: usize = 0;
    while i < m
        invariant
            m <= n,
            n == s@.len(),
            m == p@.len(),
            i <= m,
            forall|k: int| 0 <= k < i ==> s@[k] == p@[k],
        decreases m - i,
    {
        if s.get_char(i) != p.get_char(i) {
            assert(s@.subrange(0, m as int)[i as int] != p@[i as int]);
            return false;
        }
        i = i + 1;
    }
    assert(s@.subrange(0, m as int) =~= p@);
    true
}

pub fn find_char(s: &str, c: char) -> (r: Option<usize>)
    ensures
        r matches Some(i) ==> first_index_from(s@, c, 0) == Some(i as int),
        r is None ==> first_index_from(s@, c, 0) is None,
{
    let n = s.unicode_len();
    let mut i: usize = 0;
    while i < n
        invariant
            n == s@.len(),
            i <= n,
            first_index_from(s@, c, 0) == first_index_from(s@, c, i as int),
        decreases n - i,
    {
        if s.get_char(i) == c {
            return Some(i);
        }
        i = i + 1;
    }
    None
}

/// The characters of `s` that are kept, in order.
pub fn keep_chars(s: &str) -> (r: String)
    ensures
        r@ == kept_chars(s@),
{
    let n = s.unicode_len();
    let mut out = String::new();
    let mut i: usize = 0;
    while i < n
        invariant
            n == s@.len(),
            i <= n,
            out@ == kept_chars(s@.subrange(0, i as int)),
        decreases n - i,
    {
        let c = s.get_char(i);
        proof {
            assert(s@.subrange(0, i + 1).drop_last() =~= s@.subrange(0, i as int));
        }
        if ('a' <= c && c <= 'z') || ('A' <= c && c <= 'Z') || is_punct(c) {
            let one = s.substring_char(i, i + 1);
            out.append(one);
            assert(one@ =~= seq![c]);
        }
        i = i + 1;
    }
    assert(s@.subrange(0, n as int) =~= s@);
    out
}

/// `s` with the punctuation at both ends removed.
pub fn trim_edges(s: &str) -> (r: String)
    ensures
        r@ == trim_punct(s@),
{
    let n = s.unicode_len();
    let mut lo: usize = 0;
    assert(s@.subrange(0, n as int) =~= s@);
    while lo < n && is_punct(s.get_char(lo))
        invariant
            n == s@.len(),
            lo <= n,
            trim_front(s@) == trim_front(s@.subrange(lo as int, n as int)),
        decreases n - lo,
    {
        assert(s@.subrange(lo as int, n as int).drop_first() =~= s@.subrange(lo + 1, n as int));
        lo = lo + 1;
    }
    let mut hi: usize = n;
    while hi > lo && is_punct(s.get_char(hi - 1))
        invariant
            n == s@.len(),
            lo <= hi <= n,
            trim_front(s@) == s@.subrange(lo as int, n as int),
            trim_punct(s@) == trim_back(s@.subrange(lo as int, hi as int)),
        decreases hi,
    {
        assert(s@.subrange(lo as int, hi as int).drop_last() =~= s@.subrange(lo as int, hi - 1));
        hi = hi - 1;
    }
    let mid = s.substring_char(lo, hi);
    String::from_str(mid)
}

fn is_punct(c: char) -> (r: bool)
    ensures
        r == is_edge_punct(c),
{
    c == '/' || c == '.' || c == '_' || c == '-'
}

} // verus!
