//! The grouping key of a log source: sources whose paths give the same key are
//! trained and inspected against one shared model.
use vstd::prelude::*;
use crate::path::{file_name, last_component, parent_dir, parent_name};
use crate::text::{
    find_char, first_index_from, has_prefix, keep_chars, kept_chars, starts_with, trim_edges,
    trim_punct,
};

verus! {

/// A canonical grouping key derived from a path.
#[derive(Debug, Clone, PartialEq, Eq, Hash)]
pub struct IndexName(pub String);

/// The file name used where a path has none.
pub open spec fn unknown_name() -> Seq<char> {
    seq!['N', '/', 'A']
}

/// The shared key of per-instance virtual machine logs.
pub open spec fn qemu_key() -> Seq<char> {
    seq!['q', 'e', 'm', 'u', '/', 'i', 'n', 's', 't', 'a', 'n', 'c', 'e']
}

/// What a virtual machine log's short name begins with.
pub open spec fn qemu_prefix() -> Seq<char> {
    qemu_key().push('-')
}

/// What a container log's file name begins with.
pub open spec fn k8s_prefix() -> Seq<char> {
    seq!['k', '8', 's', '_']
}

/// The final component of a path, or `N/A` where it has none.
pub open spec fn file_name_or_unknown(s: Seq<char>) -> Seq<char> {
    match file_name(s) {
        Some(f) => f,
        None => unknown_name(),
    }
}

/// The file name preceded by the name of its directory, where there is one.
pub open spec fn short_name(s: Seq<char>) -> Seq<char> {
    match parent_name(s) {
        Some(p) => p + seq!['/'] + file_name_or_unknown(s),
        None => file_name_or_unknown(s),
    }
}

/// For a container log named `k8s_<service>-<id>`: the file name up to its
/// first `-`.
pub open spec fn k8s_service(f: Seq<char>) -> Option<Seq<char>> {
    if has_prefix(f, k8s_prefix()) {
        match first_index_from(f, '-', 0) {
            Some(i) => Some(f.subrange(0, i)),
            None => None,
        }
    } else {
        None
    }
}

/// The grouping key of a path: first rule that applies wins.
pub open spec fn index_name_of(s: Seq<char>) -> Seq<char> {
    if has_prefix(short_name(s), qemu_prefix()) {
        qemu_key()
    } else {
        match k8s_service(file_name_or_unknown(s)) {
            Some(service) => service,
            None => trim_punct(kept_chars(short_name(s))),
        }
    }
}

proof fn lemma_first_index_bounds(s: Seq<char>, c: char, from: int)
    ensures
        first_index_from(s, c, from) matches Some(i) ==> 0 <= from <= i < s.len() && s[i] == c,
    decreases s.len() - from,
{
    if 0 <= from < s.len() && s[from] != c {
        lemma_first_index_bounds(s, c, from + 1);
    }
}

/// The service name of a container log file name `k8s_<service>-<id>`, which
/// is the file name up to its first `-`.
pub fn is_k8s_service(filename: &str) -> (r: Option<String>)
    ensures
        r matches Some(v) ==> k8s_service(filename@) == Some(v@),
        r is None ==> k8s_service(filename@) is None,
{
    proof {
        reveal_strlit("k8s_");
        assert("k8s_"@ =~= k8s_prefix());
    }
    if starts_with(filename, "k8s_") {
        match find_char(filename, '-') {
            Some(i) => {
                proof {
                    lemma_first_index_bounds(filename@, '-', 0);
                }
                Some(String::from_str(filename.substring_char(0, i)))
            },
            None => None,
        }
    } else {
        None
    }
}

/// Whether `s[a..b]` is the component `..`.
fn is_parent_dir(s: &str, a: usize, b: usize) -> (r: bool)
    requires
        a <= b <= s@.len(),
    ensures
        r == (s@.subrange(a as int, b as int) == parent_dir()),
{
    if b - a == 2 && s.get_char(a) == '.' && s.get_char(a + 1) == '.' {
        assert(s@.subrange(a as int, b as int) =~= parent_dir());
        true
    } else {
        proof {
            assert(parent_dir().len() == 2);
            if b - a == 2 {
                if s@[a as int] != '.' {
                    assert(s@.subrange(a as int, b as int)[0] != parent_dir()[0]);
                } else {
                    assert(s@.subrange(a as int, b as int)[1] != parent_dir()[1]);
                }
            }
        }
        false
    }
}

/// The file name of a path (or `N/A`) and the name of its directory.
fn split_path(base: &str) -> (r: (String, Option<String>))
    ensures
        r.0@ == file_name_or_unknown(base@),
        r.1 matches Some(p) ==> parent_name(base@) == Some(p@),
        r.1 is None ==> parent_name(base@) is None,
{
    proof {
        reveal_strlit("N/A");
        assert("N/A"@ =~= unknown_name());
    }
    let n = base.unicode_len();
    match last_component(base, n) {
        None => (String::from_str("N/A"), None),
        Some((a, b)) => {
            let filename = if is_parent_dir(base, a, b) {
                String::from_str("N/A")
            } else {
                String::from_str(base.substring_char(a, b))
            };
            let rest: usize = if a == 0 {
                0
            } else {
                a - 1
            };
            let parent = match last_component(base, rest) {
                None => None,
                Some((c, d)) => {
                    if is_parent_dir(base, c, d) {
                        None
                    } else {
                        Some(String::from_str(base.substring_char(c, d)))
                    }
                },
            };
            (filename, parent)
        },
    }
}

impl IndexName {
    pub open spec fn view(&self) -> Seq<char> {
        self.0@
    }

    /// Derives the grouping key of a path. Total: every string has one.
    pub fn from_path(base: &str) -> (r: IndexName)
        ensures
            r@ == index_name_of(base@),
    {
        let (filename, parent) = split_path(base);
        let short = match parent {
            None => filename.clone(),
            Some(p) => {
                let mut s = p;
                proof {
                    reveal_strlit("/");
                }
                s.append("/");
                s.append(filename.as_str());
                assert("/"@ =~= seq!['/']);
                s
            },
        };
        assert(short@ == short_name(base@));
        proof {
            reveal_strlit("qemu/instance-");
            assert("qemu/instance-"@ =~= qemu_prefix());
            reveal_strlit("qemu/instance");
            assert("qemu/instance"@ =~= qemu_key());
        }
        if starts_with(short.as_str(), "qemu/instance-") {
            IndexName(String::from_str("qemu/instance"))
        } else {
            match is_k8s_service(filename.as_str()) {
                Some(service) => IndexName(service),
                None => {
                    let kept = keep_chars(short.as_str());
                    IndexName(trim_edges(kept.as_str()))
                },
            }
        }
    }
}

} // verus!
