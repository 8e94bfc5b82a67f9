//! Sources (single line producers) and contents (a file or a directory tree of
//! them), with the decisions that discover and group them.
use vstd::prelude::*;
use vstd::seq_lib::lemma_seq_contains_after_push;
use crate::index_name::{index_name_of, IndexName};

verus! {

/// A single line-producing unit: a local file, with the length of the root
/// path under which it was discovered (0 when it is that root itself).
#[derive(Debug, Clone, PartialEq, Eq, Hash)]
pub enum Source {
    Local(usize, String),
}

/// A logical input that expands to one or more sources.
#[derive(Debug, Clone, PartialEq, Eq)]
pub enum Content {
    File(Source),
    Directory(Source),
}

/// What a path names on disk, as seen by the caller.
#[derive(Debug, Clone, Copy, PartialEq, Eq)]
pub enum PathKind {
    Directory,
    File,
    Missing,
}

/// Why an input could not be turned into content.
#[derive(Debug, Clone, PartialEq, Eq)]
pub enum ContentError {
    /// The path is neither an existing file nor an existing directory.
    NotFound(String),
}

/// One item of a recursive directory walk.
#[derive(Debug, Clone, PartialEq, Eq)]
pub enum WalkEntry {
    /// An entry that was listed, with what it is.
    Found { path: String, is_symlink: bool, is_file: bool },
    /// An entry that could not be listed, with the reason.
    Failed(String),
}

impl Source {
    pub open spec fn path_view(&self) -> Seq<char> {
        match self {
            Source::Local(_, p) => p@,
        }
    }

    /// The grouping key of the source's origin path.
    pub open spec fn key(&self) -> Seq<char> {
        index_name_of(self.path_view())
    }

    fn duplicate(&self) -> (r: Source)
        ensures
            r == *self,
    {
        match self {
            Source::Local(n, p) => Source::Local(*n, p.clone()),
        }
    }

    /// A file source has one source: itself.
    pub fn file_iter(&self) -> (r: Vec<Source>)
        ensures
            r@ == seq![*self],
    {
        let mut r = Vec::new();
        r.push(self.duplicate());
        assert(r@ =~= seq![*self]);
        r
    }

    /// The grouping key of this source.
    pub fn index_name(&self) -> (r: IndexName)
        ensures
            r@ == self.key(),
    {
        match self {
            Source::Local(_, p) => IndexName::from_path(p.as_str()),
        }
    }

    /// Whether a walk entry becomes an item of a directory's expansion: a
    /// regular file that is not a symbolic link, or an entry that failed.
    pub fn keep_path(entry: &WalkEntry) -> (r: bool)
        ensures
            r == kept_entry(*entry),
    {
        match entry {
            WalkEntry::Found { is_symlink, is_file, .. } => !*is_symlink && *is_file,
            WalkEntry::Failed(_) => true,
        }
    }

    /// The expansion of a directory from the entries of its walk, in walk
    /// order: each regular non-symlink file becomes a source under the root's
    /// length, each failed entry an error, the rest is dropped.
    pub fn dir_iter(path: &str, entries: Vec<WalkEntry>) -> (r: Vec<Result<Source, String>>)
        ensures
            r@ == expansion(path@.len() as usize, entries@),
    {
        let base_len = path.unicode_len();
        let mut out: Vec<Result<Source, String>> = Vec::new();
        let mut i: usize = 0;
        let n = entries.len();
        while i < n
            invariant
                n == entries@.len(),
                i <= n,
                base_len == path@.len(),
                out@ == expansion(base_len, entries@.subrange(0, i as int)),
            decreases n - i,
        {
            proof {
                assert(entries@.subrange(0, i + 1).drop_last() =~= entries@.subrange(0, i as int));
            }
            let entry = &entries[i];
            if Source::keep_path(entry) {
                match entry {
                    WalkEntry::Found { path: p, .. } => {
                        out.push(Ok(Source::Local(base_len, p.clone())));
                    },
                    WalkEntry::Failed(e) => {
                        out.push(Err(e.clone()));
                    },
                }
            }
            i = i + 1;
        }
        assert(entries@.subrange(0, n as int) =~= entries@);
        out
    }
}

/// Whether a walk entry is kept by the expansion of a directory.
pub open spec fn kept_entry(e: WalkEntry) -> bool {
    match e {
        WalkEntry::Found { is_symlink, is_file, .. } => !is_symlink && is_file,
        WalkEntry::Failed(_) => true,
    }
}

/// What a kept walk entry becomes.
pub open spec fn entry_result(base_len: usize, e: WalkEntry) -> Result<Source, String> {
    match e {
        WalkEntry::Found { path, .. } => Ok(Source::Local(base_len, path)),
        WalkEntry::Failed(m) => Err(m),
    }
}

/// The expansion of a directory whose root has `base_len` characters.
pub open spec fn expansion(base_len: usize, entries: Seq<WalkEntry>) -> Seq<Result<Source, String>>
    decreases entries.len(),
{
    if entries.len() == 0 {
        Seq::empty()
    } else if kept_entry(entries.last()) {
        expansion(base_len, entries.drop_last()).push(entry_result(base_len, entries.last()))
    } else {
        expansion(base_len, entries.drop_last())
    }
}

} // verus!

verus! {

impl Content {
    /// The source at the root of the content.
    pub open spec fn root(&self) -> Source {
        match self {
            Content::File(s) => *s,
            Content::Directory(s) => *s,
        }
    }

    /// Classifies a path by what it names: a directory or a file becomes
    /// content rooted at it, anything else is not found.
    pub fn from_path(path: &str, kind: PathKind) -> (r: Result<Content, ContentError>)
        ensures
            (kind is Directory) == (r matches Ok(Content::Directory(_))),
            (kind is File) == (r matches Ok(Content::File(_))),
            (kind is Missing) == (r is Err),
            r matches Ok(c) ==> c.root() matches Source::Local(0, p) && p@ == path@,
            r matches Err(ContentError::NotFound(p)) ==> p@ == path@,
    {
        let src = Source::Local(0, String::from_str(path));
        match kind {
            PathKind::Directory => Ok(Content::Directory(src)),
            PathKind::File => Ok(Content::File(src)),
            PathKind::Missing => Err(ContentError::NotFound(String::from_str(path))),
        }
    }

    /// The path tried as the baseline of `path`: it with the rotation suffix
    /// `.0` appended.
    pub fn baseline_candidate(path: &str) -> (r: String)
        ensures
            r@ == path@ + seq!['.', '0'],
    {
        let mut r = String::from_str(path);
        proof {
            reveal_strlit(".0");
        }
        r.append(".0");
        assert(".0"@ =~= seq!['.', '0']);
        r
    }

    /// The baselines found for `path`, given what its candidate (see
    /// `baseline_candidate`) names on disk: the content at the candidate, or
    /// none where it does not exist.
    pub fn discover_baselines_from_path(path: &str, candidate: PathKind) -> (r: Vec<Content>)
        ensures
            candidate is Missing ==> r@.len() == 0,
            !(candidate is Missing) ==> r@.len() == 1,
            !(candidate is Missing) ==> (r@[0] matches Content::Directory(_)) == (
            candidate is Directory),
            !(candidate is Missing) ==> (r@[0].root() matches Source::Local(0, p) && p@ == path@
                + seq!['.', '0']),
    {
        let target = Content::baseline_candidate(path);
        let mut r = Vec::new();
        match Content::from_path(target.as_str(), candidate) {
            Ok(c) => r.push(c),
            Err(_) => {},
        }
        r
    }
}

/// The sources of `s` whose grouping key is `k`, in order.
pub open spec fn sources_with_key(s: Seq<Source>, k: Seq<char>) -> Seq<Source>
    decreases s.len(),
{
    if s.len() == 0 {
        Seq::empty()
    } else if s.last().key() == k {
        sources_with_key(s.drop_last(), k).push(s.last())
    } else {
        sources_with_key(s.drop_last(), k)
    }
}

/// `groups` partitions `sources` by grouping key: keys are distinct, each
/// bucket holds exactly the sources of its key in their order and is not
/// empty, and every source's key has a bucket.
pub open spec fn is_grouping(sources: Seq<Source>, groups: Seq<(IndexName, Vec<Source>)>) -> bool {
    &&& forall|a: int, b: int|
        0 <= a < b < groups.len() ==> #[trigger] groups[a].0@ != #[trigger] groups[b].0@
    &&& forall|a: int|
        0 <= a < groups.len() ==> #[trigger] groups[a].1@ == sources_with_key(sources, groups[a].0@)
            && groups[a].1@.len() > 0
    &&& forall|t: int|
        0 <= t < sources.len() ==> exists|a: int|
            0 <= a < groups.len() && #[trigger] groups[a].0@ == (#[trigger] sources[t]).key()
}

proof fn lemma_with_key_contains(s: Seq<Source>, k: Seq<char>, x: Source)
    ensures
        sources_with_key(s, k).contains(x) <==> s.contains(x) && x.key() == k,
    decreases s.len(),
{
    if s.len() > 0 {
        let d = s.drop_last();
        lemma_with_key_contains(d, k, x);
        assert(s =~= d.push(s.last()));
        lemma_seq_contains_after_push(d, s.last(), x);
        lemma_seq_contains_after_push(sources_with_key(d, k), s.last(), x);
    }
}

proof fn lemma_with_key_empty(s: Seq<Source>, k: Seq<char>)
    requires
        forall|t: int| 0 <= t < s.len() ==> (#[trigger] s[t]).key() != k,
    ensures
        sources_with_key(s, k) == Seq::<Source>::empty(),
    decreases s.len(),
{
    if s.len() > 0 {
        lemma_with_key_empty(s.drop_last(), k);
    }
}

/// Grouping is a total partition: every source lies in exactly one bucket,
/// the one keyed by its own grouping key.
pub proof fn grouping_is_partition(
    sources: Seq<Source>,
    groups: Seq<(IndexName, Vec<Source>)>,
    t: int,
)
    requires
        is_grouping(sources, groups),
        0 <= t < sources.len(),
    ensures
        exists|a: int|
            0 <= a < groups.len() && groups[a].0@ == sources[t].key() && groups[a].1@.contains(
                sources[t],
            ),
        forall|a: int, b: int|
            0 <= a < groups.len() && 0 <= b < groups.len() && groups[a].1@.contains(sources[t])
                && groups[b].1@.contains(sources[t]) ==> a == b,
        forall|a: int|
            0 <= a < groups.len() && groups[a].1@.contains(sources[t]) ==> groups[a].0@
                == sources[t].key(),
{
    let x = sources[t];
    assert(sources.contains(x));
    let a = choose|a: int| 0 <= a < groups.len() && #[trigger] groups[a].0@ == x.key();
    lemma_with_key_contains(sources, groups[a].0@, x);
    assert forall|b: int| 0 <= b < groups.len() && groups[b].1@.contains(x) implies groups[b].0@
        == x.key() by {
        lemma_with_key_contains(sources, groups[b].0@, x);
    }
    assert forall|b: int, c: int|
        0 <= b < groups.len() && 0 <= c < groups.len() && groups[b].1@.contains(x)
            && groups[c].1@.contains(x) implies b == c by {
        lemma_with_key_contains(sources, groups[b].0@, x);
        lemma_with_key_contains(sources, groups[c].0@, x);
        if b < c {
            assert(groups[b].0@ != groups[c].0@);
        } else if c < b {
            assert(groups[c].0@ != groups[b].0@);
        }
    }
}

} // verus!

verus! {

/// Partitions sources into buckets by grouping key. Buckets come in the order
/// of their first source, and each keeps its sources in their given order.
pub fn group_sources(sources: &Vec<Source>) -> (r: Vec<(IndexName, Vec<Source>)>)
    ensures
        is_grouping(sources@, r@),
{
    let mut groups: Vec<(IndexName, Vec<Source>)> = Vec::new();
    let n = sources.len();
    let mut i: usize = 0;
    while i < n
        invariant
            n == sources@.len(),
            i <= n,
            is_grouping(sources@.subrange(0, i as int), groups@),
        decreases n - i,
    {
        let ghost prev = sources@.subrange(0, i as int);
        let ghost next = sources@.subrange(0, i + 1);
        assert(next.drop_last() =~= prev);
        let src = &sources[i];
        let key = src.index_name();
        let m = groups.len();
        let mut j: usize = 0;
        let mut found: Option<usize> = None;
        while j < m
            invariant
                m == groups@.len(),
                j <= m,
                found matches Some(f) ==> f < m && groups@[f as int].0@ == key@,
                found is None ==> forall|a: int| 0 <= a < j ==> groups@[a].0@ != key@,
            decreases m - j,
        {
            if groups[j].0.0 == key.0 {
                found = Some(j);
                j = m;
            } else {
                j = j + 1;
            }
        }
        let ghost old_groups = groups@;
        match found {
            Some(f) => {
                let mut slot: (IndexName, Vec<Source>) = (IndexName(String::new()), Vec::new());
                groups.set_and_swap(f, &mut slot);
                slot.1.push(src.duplicate());
                groups.set_and_swap(f, &mut slot);
                assert forall|a: int| 0 <= a < groups@.len() implies #[trigger] groups@[a].1@
                    == sources_with_key(next, groups@[a].0@) && groups@[a].1@.len() > 0 by {
                    assert(groups@[a].0@ == old_groups[a].0@);
                }
                assert forall|t: int| 0 <= t < next.len() implies exists|a: int|
                    0 <= a < groups@.len() && #[trigger] groups@[a].0@ == (
                    #[trigger] next[t]).key() by {
                    if t < i {
                        assert(prev[t] == next[t]);
                        let a = choose|a: int|
                            0 <= a < old_groups.len() && #[trigger] old_groups[a].0@
                                == (#[trigger] prev[t]).key();
                        assert(groups@[a].0@ == old_groups[a].0@);
                    } else {
                        assert(groups@[f as int].0@ == key@);
                    }
                }
            },
            None => {
                proof {
                    assert forall|t: int| 0 <= t < prev.len() implies (#[trigger] prev[t]).key()
                        != key@ by {
                        let a = choose|a: int|
                            0 <= a < old_groups.len() && #[trigger] old_groups[a].0@
                                == (#[trigger] prev[t]).key();
                    }
                    lemma_with_key_empty(prev, key@);
                }
                let mut bucket = Vec::new();
                bucket.push(src.duplicate());
                groups.push((key, bucket));
                assert forall|a: int| 0 <= a < groups@.len() implies #[trigger] groups@[a].1@
                    == sources_with_key(next, groups@[a].0@) && groups@[a].1@.len() > 0 by {
                    if a < old_groups.len() {
                        assert(groups@[a] == old_groups[a]);
                    } else {
                        assert(groups@[a].1@ =~= Seq::<Source>::empty().push(next.last()));
                    }
                }
                assert forall|t: int| 0 <= t < next.len() implies exists|a: int|
                    0 <= a < groups@.len() && #[trigger] groups@[a].0@ == (
                    #[trigger] next[t]).key() by {
                    if t < i {
                        assert(prev[t] == next[t]);
                        let a = choose|a: int|
                            0 <= a < old_groups.len() && #[trigger] old_groups[a].0@
                                == (#[trigger] prev[t]).key();
                        assert(groups@[a] == old_groups[a]);
                    } else {
                        assert(groups@[m as int].0@ == key@);
                    }
                }
                assert forall|a: int, b: int| 0 <= a < b < groups@.len() implies #[trigger] groups@[a].0@
                    != #[trigger] groups@[b].0@ by {
                    if b == m {
                        assert(groups@[a] == old_groups[a]);
                    } else {
                        assert(groups@[a] == old_groups[a]);
                        assert(groups@[b] == old_groups[b]);
                    }
                }
            },
        }
        i = i + 1;
    }
    assert(sources@.subrange(0, n as int) =~= sources@);
    groups
}

} // verus!

verus! {

/// Directory expansion keeps every regular non-symlink file and every failed
/// entry (as an error), and yields nothing else: each item of the expansion
/// comes from such an entry, so directories and symbolic links are left out.
pub proof fn expansion_keeps_files_and_errors(base_len: usize, entries: Seq<WalkEntry>)
    ensures
        forall|j: int|
            0 <= j < entries.len() && kept_entry(#[trigger] entries[j]) ==> expansion(
                base_len,
                entries,
            ).contains(entry_result(base_len, entries[j])),
        forall|x: Result<Source, String>|
            #[trigger] expansion(base_len, entries).contains(x) ==> exists|j: int|
                0 <= j < entries.len() && kept_entry(#[trigger] entries[j]) && entry_result(
                    base_len,
                    entries[j],
                ) == x,
    decreases entries.len(),
{
    if entries.len() > 0 {
        let d = entries.drop_last();
        let l = entries.last();
        expansion_keeps_files_and_errors(base_len, d);
        let before = expansion(base_len, d);
        assert forall|j: int|
            0 <= j < entries.len() && kept_entry(#[trigger] entries[j]) implies expansion(
            base_len,
            entries,
        ).contains(entry_result(base_len, entries[j])) by {
            if j < d.len() {
                assert(d[j] == entries[j]);
                lemma_seq_contains_after_push(before, entry_result(base_len, l), entry_result(base_len, entries[j]));
            } else {
                lemma_seq_contains_after_push(before, entry_result(base_len, l), entry_result(base_len, l));
            }
        }
        assert forall|x: Result<Source, String>|
            #[trigger] expansion(base_len, entries).contains(x) implies exists|j: int|
            0 <= j < entries.len() && kept_entry(#[trigger] entries[j]) && entry_result(
                base_len,
                entries[j],
            ) == x by {
            if kept_entry(l) {
                lemma_seq_contains_after_push(before, entry_result(base_len, l), x);
            }
            if before.contains(x) {
                let j = choose|j: int|
                    0 <= j < d.len() && kept_entry(#[trigger] d[j]) && entry_result(base_len, d[j])
                        == x;
                assert(entries[j] == d[j]);
            } else {
                assert(entries[entries.len() - 1] == l);
            }
        }
    }
}

} // verus!
