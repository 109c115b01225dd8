//! Values cached per file, each served only while the file is as it was when the value was made.

use std::sync::Arc;
use vstd::prelude::*;

use crate::extractors::StructuralNode;
use crate::path_table::PathTable;
use crate::paths::{PathView, RepoPath};

verus! {

/// A value made from a file, with the modification time and the length that the file had then.
pub struct Stamped<T> {
    pub mtime: i128,
    pub len: u64,
    pub value: Arc<T>,
}

/// What a cache serves for `path` when the file there has this modification time and length: the
/// value recorded under exactly these, if there is one.
pub open spec fn served<T>(
    cache: Map<PathView, Stamped<T>>,
    path: PathView,
    mtime: i128,
    len: u64,
) -> Option<Arc<T>> {
    if cache.contains_key(path) && cache[path].mtime == mtime && cache[path].len == len {
        Some(cache[path].value)
    } else {
        None
    }
}

/// The cache after a value has been recorded for `path`.
pub open spec fn stored<T>(
    cache: Map<PathView, Stamped<T>>,
    path: PathView,
    mtime: i128,
    len: u64,
    value: Arc<T>,
) -> Map<PathView, Stamped<T>> {
    cache.insert(path, Stamped { mtime, len, value })
}

/// Values by path, each under the modification time and length that its file had.
#[verifier::reject_recursive_types(T)]
struct StampedTable<T> {
    entries: PathTable<Stamped<T>>,
}

impl<T> StampedTable<T> {
    spec fn wf(self) -> bool {
        self.entries.wf()
    }

    fn new() -> (r: Self)
        ensures
            r.wf(),
            r.entries@ == Map::<PathView, Stamped<T>>::empty(),
    {
        StampedTable { entries: PathTable::new() }
    }

    fn get_if_fresh(&self, path: &RepoPath, mtime: i128, len: u64) -> (r: Option<Arc<T>>)
        requires
            self.wf(),
        ensures
            r == served(self.entries@, path@, mtime, len),
    {
        match self.entries.get(path) {
            Some(entry) => if entry.mtime == mtime && entry.len == len {
                Some(entry.value.clone())
            } else {
                None
            },
            None => None,
        }
    }

    fn store(&mut self, path: &RepoPath, mtime: i128, len: u64, value: Arc<T>)
        requires
            old(self).wf(),
        ensures
            final(self).wf(),
            final(self).entries@ == stored(old(self).entries@, path@, mtime, len, value),
    {
        self.entries.insert(path, Stamped { mtime, len, value });
    }

    fn invalidate(&mut self, path: &RepoPath)
        requires
            old(self).wf(),
        ensures
            final(self).wf(),
            final(self).entries@ == old(self).entries@.remove(path@),
    {
        self.entries.remove(path);
    }
}

/// Caches the structural nodes of files, by path. Nodes are served only when the file's current
/// modification time and length are those under which they were recorded.
pub struct FileCache {
    table: StampedTable<Vec<StructuralNode>>,
}

impl View for FileCache {
    type V = Map<PathView, Stamped<Vec<StructuralNode>>>;

    closed spec fn view(&self) -> Map<PathView, Stamped<Vec<StructuralNode>>> {
        self.table.entries@
    }
}

impl FileCache {
    /// The table of nodes is in order.
    pub closed spec fn wf(self) -> bool {
        self.table.wf()
    }

    /// The cache that holds nothing.
    pub fn new() -> (r: FileCache)
        ensures
            r.wf(),
            r@ == Map::<PathView, Stamped<Vec<StructuralNode>>>::empty(),
    {
        FileCache { table: StampedTable::new() }
    }

    /// The nodes recorded for `path`, if they were recorded under this modification time and
    /// length.
    pub fn get_if_fresh(&self, path: &RepoPath, mtime: i128, len: u64) -> (r: Option<
        Arc<Vec<StructuralNode>>,
    >)
        requires
            self.wf(),
        ensures
            r == served(self@, path@, mtime, len),
    {
        self.table.get_if_fresh(path, mtime, len)
    }

    /// Records the nodes of the file at `path`, in place of those recorded before.
    pub fn store(&mut self, path: &RepoPath, mtime: i128, len: u64, nodes: Arc<Vec<StructuralNode>>)
        requires
            old(self).wf(),
        ensures
            final(self).wf(),
            final(self)@ == stored(old(self)@, path@, mtime, len, nodes),
    {
        self.table.store(path, mtime, len, nodes);
    }

    /// Forgets the nodes of the file at `path`, if there are any.
    pub fn invalidate(&mut self, path: &RepoPath)
        requires
            old(self).wf(),
        ensures
            final(self).wf(),
            final(self)@ == old(self)@.remove(path@),
    {
        self.table.invalidate(path);
    }
}

/// Caches the text of files, by path, so that a search over an unchanged file does not read it
/// again. A text is served only when the file's current modification time and length are those
/// under which it was recorded.
///
/// A recorded text stays until it is replaced or forgotten: nothing bounds what the cache holds.
pub struct ContentCache {
    table: StampedTable<String>,
}

impl View for ContentCache {
    type V = Map<PathView, Stamped<String>>;

    closed spec fn view(&self) -> Map<PathView, Stamped<String>> {
        self.table.entries@
    }
}

impl ContentCache {
    /// The table of texts is in order.
    pub closed spec fn wf(self) -> bool {
        self.table.wf()
    }

    /// The cache that holds nothing.
    pub fn new() -> (r: ContentCache)
        ensures
            r.wf(),
            r@ == Map::<PathView, Stamped<String>>::empty(),
    {
        ContentCache { table: StampedTable::new() }
    }

    /// The text recorded for `path`, if it was recorded under this modification time and length.
    pub fn get_if_fresh(&self, path: &RepoPath, mtime: i128, len: u64) -> (r: Option<Arc<String>>)
        requires
            self.wf(),
        ensures
            r == served(self@, path@, mtime, len),
    {
        self.table.get_if_fresh(path, mtime, len)
    }

    /// Records the text of the file at `path`, in place of the one recorded before.
    pub fn store(&mut self, path: &RepoPath, mtime: i128, len: u64, content: Arc<String>)
        requires
            old(self).wf(),
        ensures
            final(self).wf(),
            final(self)@ == stored(old(self)@, path@, mtime, len, content),
    {
        self.table.store(path, mtime, len, content);
    }

    /// Forgets the text of the file at `path`, if there is one.
    pub fn invalidate(&mut self, path: &RepoPath)
        requires
            old(self).wf(),
        ensures
            final(self).wf(),
            final(self)@ == old(self)@.remove(path@),
    {
        self.table.invalidate(path);
    }
}

/// A recorded value is served to a reader who finds the file with the modification time and
/// length that it was recorded under, and to no other; what is recorded for other files stays.
pub proof fn law_store_then_get<T>(
    cache: Map<PathView, Stamped<T>>,
    path: PathView,
    mtime: i128,
    len: u64,
    value: Arc<T>,
)
    ensures
        ({
            let after = stored(cache, path, mtime, len, value);
            &&& served(after, path, mtime, len) == Some(value)
            &&& forall|m: i128, l: u64|
                m != mtime || l != len ==> #[trigger] served(after, path, m, l) is None
            &&& forall|p: PathView, m: i128, l: u64|
                p != path ==> #[trigger] served(after, p, m, l) == served(cache, p, m, l)
        }),
{
}

/// Nothing is served for a file once it has been forgotten, whatever its modification time and
/// length; what is recorded for other files stays. Forgetting a file of which nothing is recorded
/// changes nothing.
pub proof fn law_invalidate_then_get<T>(cache: Map<PathView, Stamped<T>>, path: PathView)
    ensures
        ({
            let after = cache.remove(path);
            &&& forall|m: i128, l: u64| #[trigger] served(after, path, m, l) is None
            &&& forall|p: PathView, m: i128, l: u64|
                p != path ==> #[trigger] served(after, p, m, l) == served(cache, p, m, l)
            &&& !cache.contains_key(path) ==> after == cache
        }),
{
    if !cache.contains_key(path) {
        assert(cache.remove(path) =~= cache);
    }
}

/// Forgetting a file undoes what was recorded for it.
pub proof fn law_store_then_invalidate<T>(
    cache: Map<PathView, Stamped<T>>,
    path: PathView,
    mtime: i128,
    len: u64,
    value: Arc<T>,
)
    ensures
        stored(cache, path, mtime, len, value).remove(path) == cache.remove(path),
{
    assert(stored(cache, path, mtime, len, value).remove(path) =~= cache.remove(path));
}

} // verus!
