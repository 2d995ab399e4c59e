//! In-memory mirror of a filesystem subtree behind a pluggable fetcher.
//!
//! `Imfs` caches, per refreshed path, a detached snapshot of the subtree the
//! fetcher reported. `refresh` re-fetches and replaces the cached state;
//! `snapshot` detaches the cached state without fetching; `entry` fetches
//! only on a cache miss. The cache's view is the mathematical map from path
//! to snapshot; nothing here ever writes to the real filesystem.
//!
//! What the fetcher returns is the outside world's business: the contracts
//! say how the cache changes in terms of whatever came back.

use vstd::prelude::*;
use vstd::map::*;

verus! {

/// A typed, recoverable filesystem error.
#[derive(Clone, Copy, Debug, PartialEq, Eq, Structural)]
pub enum FsError {
    NotFound,
    PermissionDenied,
    Io,
}

/// What kind of entry a path names.
#[derive(Clone, Copy, Debug, PartialEq, Eq, Structural)]
pub enum EntryKind {
    File,
    Directory,
}

/// The fetch capability: real filesystem access, or an in-memory mock for
/// tests. Any failure surfaces as a typed `FsError`, never a crash. Nothing
/// is promised of the results: they describe the outside world.
pub trait ImfsFetcher {
    /// Whether `path` names a file or a directory.
    fn entry_kind(&mut self, path: &String) -> Result<EntryKind, FsError>;

    /// The text contents of the file at `path`.
    fn read_contents(&mut self, path: &String) -> Result<String, FsError>;

    /// The names of the children of the directory at `path`.
    fn list_children(&mut self, path: &String) -> Result<Vec<String>, FsError>;
}

/// One named child of a directory snapshot.
#[derive(Debug, PartialEq, Eq)]
pub struct DirChild {
    pub name: String,
    pub entry: ImfsSnapshot,
}

/// An owned, detached copy of a filesystem subtree, usable after the cached
/// state it came from is replaced. Immutable once created.
#[derive(Debug, PartialEq, Eq)]
pub enum ImfsSnapshot {
    File { contents: String },
    Directory { children: Vec<DirChild> },
}

/// Ghost mirror of `DirChild`.
#[verifier::ext_equal]
pub struct ChildData {
    pub name: Seq<char>,
    pub entry: ImfsData,
}

/// Ghost mirror of `ImfsSnapshot`.
#[verifier::ext_equal]
pub enum ImfsData {
    File { contents: Seq<char> },
    Directory { children: Seq<ChildData> },
}

/// The ghost value of a filesystem snapshot.
pub open spec fn imfs_view(s: ImfsSnapshot) -> ImfsData
    decreases s,
{
    match s {
        ImfsSnapshot::File { contents } => ImfsData::File { contents: contents@ },
        ImfsSnapshot::Directory { children } => ImfsData::Directory {
            children: Seq::new(
                children.len() as nat,
                |i: int|
                    if 0 <= i < children.len() {
                        ChildData { name: children[i as int].name@, entry: imfs_view(children[i as int].entry) }
                    } else {
                        vstd::pervasive::arbitrary()
                    },
            ),
        },
    }
}

impl View for ImfsSnapshot {
    type V = ImfsData;

    open spec fn view(&self) -> ImfsData {
        imfs_view(*self)
    }
}

impl ImfsSnapshot {
    /// An owned, equal copy of the snapshot.
    #[verifier::loop_isolation(false)]
    pub fn duplicate(&self) -> (r: ImfsSnapshot)
        ensures
            r@ == self@,
        decreases *self,
    {
        match self {
            ImfsSnapshot::File { contents } => ImfsSnapshot::File { contents: contents.clone() },
            ImfsSnapshot::Directory { children } => {
                let mut out: Vec<DirChild> = Vec::new();
                let mut i: usize = 0;
                while i < children.len()
                    invariant
                        i <= children.len(),
                        out@.len() == i as int,
                        forall|j: int|
                            0 <= j < i as int ==> out@[j].name@ == children@[j].name@
                                && imfs_view(out@[j].entry) == imfs_view(children@[j].entry),
                    decreases children.len() - i,
                {
                    proof {
                        assert(decreases_to!(*self => children[i as int].entry));
                    }
                    out.push(
                        DirChild {
                            name: children[i].name.clone(),
                            entry: children[i].entry.duplicate(),
                        },
                    );
                    i = i + 1;
                }
                let r = ImfsSnapshot::Directory { children: out };
                proof {
                    assert forall|j: int|
                        0 <= j < r@->Directory_children.len() implies r@->Directory_children[j]
                        == self@->Directory_children[j] by {
                        assert(r@->Directory_children[j].entry == imfs_view(out@[j].entry));
                        assert(self@->Directory_children[j].entry == imfs_view(children@[j].entry));
                    }
                    assert(r@->Directory_children =~= self@->Directory_children);
                    assert(r@ =~= self@);
                }
                r
            },
        }
    }
}

/// One cached path with the snapshot its last refresh produced.
pub struct CacheEntry {
    pub path: String,
    pub snap: ImfsSnapshot,
}

/// The map described by a sequence of cache entries, later entries winning.
pub open spec fn cache_map_of(s: Seq<CacheEntry>) -> Map<Seq<char>, ImfsData>
    decreases s.len(),
{
    if s.len() == 0 {
        Map::empty()
    } else {
        cache_map_of(s.drop_last()).insert(s.last().path@, s.last().snap@)
    }
}

/// No path occurs twice.
pub open spec fn cache_paths_unique(s: Seq<CacheEntry>) -> bool {
    forall|i: int, j: int| 0 <= i < j < s.len() ==> s[i].path@ != s[j].path@
}

/// A key is in the map exactly when some entry carries it.
pub proof fn lemma_cache_map_contains(s: Seq<CacheEntry>, k: Seq<char>)
    ensures
        cache_map_of(s).contains_key(k) <==> exists|i: int| 0 <= i < s.len() && s[i].path@ == k,
    decreases s.len(),
{
    if s.len() > 0 {
        lemma_cache_map_contains(s.drop_last(), k);
        if cache_map_of(s).contains_key(k) {
            if s.last().path@ == k {
                assert(s[s.len() - 1].path@ == k);
            }
        }
        if exists|i: int| 0 <= i < s.len() && s[i].path@ == k {
            let i = choose|i: int| 0 <= i < s.len() && s[i].path@ == k;
            if i < s.len() - 1 {
                assert(s.drop_last()[i].path@ == k);
            }
        }
    }
}

/// With unique paths, the entry at `i` gives the map's value at its path.
pub proof fn lemma_cache_map_at(s: Seq<CacheEntry>, i: int)
    requires
        cache_paths_unique(s),
        0 <= i < s.len(),
    ensures
        cache_map_of(s).contains_key(s[i].path@),
        cache_map_of(s)[s[i].path@] == s[i].snap@,
    decreases s.len(),
{
    if i == s.len() - 1 {
    } else {
        assert(cache_paths_unique(s.drop_last()));
        assert(s.drop_last()[i] == s[i]);
        lemma_cache_map_at(s.drop_last(), i);
        assert(s[i].path@ != s.last().path@);
    }
}

/// Removing the entry at `i` removes exactly its path from the map.
pub proof fn lemma_cache_map_remove_at(s: Seq<CacheEntry>, i: int)
    requires
        cache_paths_unique(s),
        0 <= i < s.len(),
    ensures
        cache_map_of(s.remove(i)) == cache_map_of(s).remove(s[i].path@),
    decreases s.len(),
{
    if i == s.len() - 1 {
        assert(s.remove(i) =~= s.drop_last());
        lemma_cache_map_contains(s.drop_last(), s[i].path@);
        assert forall|j: int| 0 <= j < s.drop_last().len() implies s.drop_last()[j].path@ != s[
            i
        ].path@ by {
            assert(s[j].path@ != s[i].path@);
        }
        assert(cache_map_of(s.drop_last()) =~= cache_map_of(s.drop_last()).remove(s[i].path@));
        assert(cache_map_of(s).remove(s[i].path@) =~= cache_map_of(s.drop_last()).remove(
            s[i].path@,
        ));
    } else {
        assert(cache_paths_unique(s.drop_last()));
        assert(s.drop_last()[i] == s[i]);
        lemma_cache_map_remove_at(s.drop_last(), i);
        assert(s.remove(i).drop_last() =~= s.drop_last().remove(i));
        assert(s.remove(i).last() == s.last());
        assert(s[i].path@ != s.last().path@);
        assert(cache_map_of(s.remove(i)) == cache_map_of(s.drop_last().remove(i)).insert(
            s.last().path@,
            s.last().snap@,
        ));
        assert(cache_map_of(s.remove(i)) =~= cache_map_of(s).remove(s[i].path@));
    }
}

/// The in-memory filesystem: a fetch capability plus the cache of detached
/// snapshots, one per refreshed path.
pub struct Imfs<F: ImfsFetcher> {
    pub fetcher: F,
    entries: Vec<CacheEntry>,
}

impl<F: ImfsFetcher> Imfs<F> {
    /// The cached state, as a map from path to snapshot.
    pub closed spec fn cache(&self) -> Map<Seq<char>, ImfsData> {
        cache_map_of(self.entries@)
    }

    /// No path is cached twice.
    pub closed spec fn wf(&self) -> bool {
        cache_paths_unique(self.entries@)
    }

    /// An empty cache over the given fetcher.
    pub fn new(fetcher: F) -> (r: Imfs<F>)
        ensures
            r.cache() == Map::<Seq<char>, ImfsData>::empty(),
            r.wf(),
    {
        Imfs { fetcher, entries: Vec::new() }
    }

    /// Detaches the cached snapshot for `path` without fetching.
    pub fn snapshot(&self, path: &String) -> (r: Option<ImfsSnapshot>)
        requires
            self.wf(),
        ensures
            match r {
                Some(s) => self.cache().contains_key(path@) && self.cache()[path@] == s@,
                None => !self.cache().contains_key(path@),
            },
    {
        let mut i: usize = 0;
        while i < self.entries.len()
            invariant
                self.wf(),
                i <= self.entries.len(),
                forall|j: int| 0 <= j < i as int ==> self.entries@[j].path@ != path@,
            decreases self.entries.len() - i,
        {
            if self.entries[i].path == *path {
                proof {
                    lemma_cache_map_at(self.entries@, i as int);
                }
                return Some(self.entries[i].snap.duplicate());
            }
            i = i + 1;
        }
        proof {
            lemma_cache_map_contains(self.entries@, path@);
        }
        None
    }

    /// Drops the cached state for `path`, if any: the next `entry` call will
    /// fetch anew.
    pub fn remove_entry(&mut self, path: &String)
        requires
            old(self).wf(),
        ensures
            final(self).wf(),
            final(self).cache() == old(self).cache().remove(path@),
    {
        let ghost s0 = self.entries@;
        let mut i: usize = 0;
        while i < self.entries.len()
            invariant
                self.entries@ == s0,
                old(self).entries@ == s0,
                cache_paths_unique(s0),
                i <= self.entries.len(),
                forall|j: int| 0 <= j < i as int ==> self.entries@[j].path@ != path@,
            decreases self.entries.len() - i,
        {
            if self.entries[i].path == *path {
                proof {
                    assert(s0[i as int].path@ == path@);
                    lemma_cache_map_remove_at(s0, i as int);
                }
                let _ = self.entries.remove(i);
                proof {
                    assert(self.entries@ =~= s0.remove(i as int));
                    assert forall|x: int, y: int|
                        0 <= x < y < self.entries@.len() implies self.entries@[x].path@
                        != self.entries@[y].path@ by {
                        if y < i as int {
                            assert(s0[x].path@ != s0[y].path@);
                        } else if x < i as int {
                            assert(s0[x].path@ != s0[y + 1].path@);
                        } else {
                            assert(s0[x + 1].path@ != s0[y + 1].path@);
                        }
                    }
                }
                return ;
            }
            i = i + 1;
        }
        proof {
            lemma_cache_map_contains(s0, path@);
            assert(self.cache() =~= old(self).cache().remove(path@));
        }
    }

    /// Stores `snap` as the cached state for `path`, replacing any previous
    /// state.
    fn store(&mut self, path: String, snap: ImfsSnapshot)
        requires
            old(self).wf(),
        ensures
            final(self).wf(),
            final(self).cache() == old(self).cache().insert(path@, snap@),
    {
        self.remove_entry(&path);
        let ghost mid = self.entries@;
        proof {
            lemma_cache_map_contains(mid, path@);
        }
        self.entries.push(CacheEntry { path, snap });
        proof {
            assert(self.entries@.drop_last() =~= mid);
            assert(self.cache() =~= old(self).cache().insert(
                self.entries@.last().path@,
                self.entries@.last().snap@,
            ));
        }
    }

    /// Re-fetches the subtree rooted at `path`, descending at most `depth`
    /// directory levels, and replaces the cached state for `path` with what
    /// the fetcher reported. On an error the cache is left unchanged and the
    /// caller decides whether to retry or drop the path; a directory nested
    /// deeper than `depth` surfaces as `Io`.
    pub fn refresh(&mut self, path: &String, depth: usize) -> (r: Result<ImfsSnapshot, FsError>)
        requires
            old(self).wf(),
        ensures
            final(self).wf(),
            match r {
                Ok(s) => final(self).cache() == old(self).cache().insert(path@, s@),
                Err(_) => final(self).cache() == old(self).cache(),
            },
    {
        let fetched = fetch_subtree(&mut self.fetcher, path, depth);
        proof {
            assert(self.entries@ == old(self).entries@);
        }
        match fetched {
            Ok(snap) => {
                let copy = snap.duplicate();
                self.store(path.clone(), snap);
                Ok(copy)
            },
            Err(e) => Err(e),
        }
    }

    /// The snapshot for `path`: the cached state if present, else a fetch as
    /// by `refresh`.
    pub fn entry(&mut self, path: &String, depth: usize) -> (r: Result<ImfsSnapshot, FsError>)
        requires
            old(self).wf(),
        ensures
            final(self).wf(),
            old(self).cache().contains_key(path@) ==> r is Ok && final(self).cache() == old(
                self,
            ).cache() && old(self).cache()[path@] == (r->Ok_0)@,
            !old(self).cache().contains_key(path@) ==> match r {
                Ok(s) => final(self).cache() == old(self).cache().insert(path@, s@),
                Err(_) => final(self).cache() == old(self).cache(),
            },
    {
        let cached = self.snapshot(path);
        match cached {
            Some(s) => Ok(s),
            None => self.refresh(path, depth),
        }
    }
}

/// Builds a snapshot of the subtree at `path` by asking the fetcher,
/// descending at most `depth` directory levels. Reads only: the cache is not
/// touched. The result is whatever the fetcher reported.
fn fetch_subtree<F: ImfsFetcher>(fetcher: &mut F, path: &String, depth: usize) -> (r: Result<
    ImfsSnapshot,
    FsError,
>)
    decreases depth,
{
    let kind = match fetcher.entry_kind(path) {
        Ok(k) => k,
        Err(e) => {
            return Err(e);
        },
    };
    match kind {
        EntryKind::File => {
            match fetcher.read_contents(path) {
                Ok(contents) => Ok(ImfsSnapshot::File { contents }),
                Err(e) => Err(e),
            }
        },
        EntryKind::Directory => {
            if depth == 0 {
                return Err(FsError::Io);
            }
            let names = match fetcher.list_children(path) {
                Ok(ns) => ns,
                Err(e) => {
                    return Err(e);
                },
            };
            let mut children: Vec<DirChild> = Vec::new();
            let mut i: usize = 0;
            while i < names.len()
                invariant
                    depth >= 1,
                    i <= names.len(),
                decreases names.len() - i,
            {
                let child_path = join_path(path, &names[i]);
                match fetch_subtree(fetcher, &child_path, depth - 1) {
                    Ok(entry) => {
                        children.push(DirChild { name: names[i].clone(), entry });
                    },
                    Err(e) => {
                        return Err(e);
                    },
                }
                i = i + 1;
            }
            Ok(ImfsSnapshot::Directory { children })
        },
    }
}

/// The filesystem path of `name` inside the directory at `parent`.
pub fn join_path(parent: &String, name: &String) -> (r: String)
    ensures
        r@ == parent@ + "/"@ + name@,
{
    let mut out = parent.clone();
    out.append("/");
    out.append(name.as_str());
    out
}

} // verus!