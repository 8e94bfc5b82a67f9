//! Components of a `/`-separated path, as a Unix path is read: empty parts and
//! `.` parts are skipped, `..` is kept as a component of its own.
use vstd::prelude::*;

verus! {

/// The position of the last `/` in `s[0..end]`, or -1 when there is none.
pub open spec fn last_sep_before(s: Seq<char>, end: int) -> int
    decreases end,
{
    if end <= 0 {
        -1
    } else if s[end - 1] == '/' {
        end - 1
    } else {
        last_sep_before(s, end - 1)
    }
}

/// Whether a part between two separators names no component.
pub open spec fn is_skipped_part(p: Seq<char>) -> bool {
    p.len() == 0 || p == seq!['.']
}

/// The components of `s[0..end]`, first to last.
pub open spec fn components_upto(s: Seq<char>, end: int) -> Seq<Seq<char>>
    decreases end,
{
    if end <= 0 {
        Seq::empty()
    } else {
        let k = last_sep_before(s, end);
        let part = s.subrange(k + 1, end);
        let before = if 0 <= k && k < end {
            components_upto(s, k)
        } else {
            Seq::empty()
        };
        if is_skipped_part(part) {
            before
        } else {
            before.push(part)
        }
    }
}

/// The components of the whole path.
pub open spec fn components(s: Seq<char>) -> Seq<Seq<char>> {
    components_upto(s, s.len() as int)
}

pub open spec fn parent_dir() -> Seq<char> {
    seq!['.', '.']
}

/// The final component, unless the path has none or ends in `..`.
pub open spec fn file_name(s: Seq<char>) -> Option<Seq<char>> {
    let cs = components(s);
    if cs.len() > 0 && cs.last() != parent_dir() {
        Some(cs.last())
    } else {
        None
    }
}

/// The name of the directory that holds the final component, where the path
/// has a component before it and that one is not `..`.
pub open spec fn parent_name(s: Seq<char>) -> Option<Seq<char>> {
    let cs = components(s);
    if cs.len() >= 2 && cs[cs.len() - 2] != parent_dir() {
        Some(cs[cs.len() - 2])
    } else {
        None
    }
}

proof fn lemma_last_sep_bounds(s: Seq<char>, end: int)
    requires
        end <= s.len(),
    ensures
        -1 <= last_sep_before(s, end) < end || end <= 0,
        last_sep_before(s, end) >= 0 ==> s[last_sep_before(s, end)] == '/',
    decreases end,
{
    if end > 0 && s[end - 1] != '/' {
        lemma_last_sep_bounds(s, end - 1);
    }
}

/// Where the last component of `s[0..end]` stands: `Some((a, b))` with the
/// component at `s[a..b]`, the components before it being those of
/// `s[0..rest]` where `rest` is `a - 1` (or 0 when `a` is 0).
pub fn last_component(s: &str, end: usize) -> (r: Option<(usize, usize)>)
    requires
        end <= s@.len(),
    ensures
        r is None ==> components_upto(s@, end as int).len() == 0,
        r matches Some((a, b)) ==> {
            &&& a < b <= end
            &&& (a > 0 ==> s@[a - 1] == '/')
            &&& components_upto(s@, end as int) == components_upto(
                s@,
                if a == 0 { 0 } else { a - 1 },
            ).push(s@.subrange(a as int, b as int))
        },
{
    let mut pos: usize = end;
    loop
        invariant
            pos <= end <= s@.len(),
            components_upto(s@, end as int) == components_upto(s@, pos as int),
        decreases pos,
    {
        if pos == 0 {
            return None;
        }
        let mut j: usize = pos;
        while j > 0 && s.get_char(j - 1) != '/'
            invariant
                j <= pos <= s@.len(),
                last_sep_before(s@, pos as int) == last_sep_before(s@, j as int),
            decreases j,
        {
            j = j - 1;
        }
        proof {
            lemma_last_sep_bounds(s@, pos as int);
            assert(last_sep_before(s@, pos as int) == j - 1);
        }
        let ghost part = s@.subrange(j as int, pos as int);
        let is_dot = pos - j == 1 && s.get_char(j) == '.';
        proof {
            if pos - j == 1 {
                if s@[j as int] == '.' {
                    assert(part =~= seq!['.']);
                } else {
                    assert(part[0] != seq!['.'][0]);
                }
            }
        }
        if j < pos && !is_dot {
            return Some((j, pos));
        }
        if j == 0 {
            return None;
        }
        pos = j - 1;
    }
}

} // verus!
