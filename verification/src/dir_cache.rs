//! Cached directory listings, and the crawl of a directory tree through them.
//!
//! A directory's modification time changes whenever an entry is added, removed or renamed inside
//! it. A listing whose recorded time is still the directory's is used again in place of listing
//! the directory anew.

use vstd::prelude::*;
use vstd::utf8::*;

use crate::path_table::PathTable;
use crate::paths::{path_views, PathView, RepoPath};
use crate::text::{same_bytes, views};

verus! {

/// One entry of a directory, as the file system lists it.
pub struct DirItem {
    pub name: Vec<u8>,
    pub is_dir: bool,
}

/// What a `DirItem` stands for.
pub struct ItemView {
    pub name: Seq<u8>,
    pub is_dir: bool,
}

impl View for DirItem {
    type V = ItemView;

    open spec fn view(&self) -> ItemView {
        ItemView { name: self.name@, is_dir: self.is_dir }
    }
}

/// The views of a sequence of directory entries.
pub open spec fn item_views(v: Seq<DirItem>) -> Seq<ItemView> {
    Seq::new(v.len(), |i: int| v[i]@)
}

/// A directory's listing, with the modification time that the directory had when it was listed.
pub struct DirCacheEntry {
    pub mtime: i128,
    pub files: Vec<RepoPath>,
    pub subdirs: Vec<RepoPath>,
}

/// What a `DirCacheEntry` stands for.
#[verifier::ext_equal]
pub struct ListingView {
    pub mtime: i128,
    pub files: Seq<PathView>,
    pub subdirs: Seq<PathView>,
}

impl View for DirCacheEntry {
    type V = ListingView;

    open spec fn view(&self) -> ListingView {
        ListingView {
            mtime: self.mtime,
            files: path_views(self.files@),
            subdirs: path_views(self.subdirs@),
        }
    }
}

/// How many directories a crawl has been to, and how many of them it had to list.
pub struct CrawlStats {
    pub dirs_visited: usize,
    pub dirs_rescanned: usize,
}

impl Default for CrawlStats {
    fn default() -> (r: CrawlStats)
        ensures
            r.dirs_visited == 0,
            r.dirs_rescanned == 0,
    {
        CrawlStats { dirs_visited: 0, dirs_rescanned: 0 }
    }
}

/// Whether a crawl stays out of directories of this name.
pub open spec fn is_skipped(name: Seq<u8>) -> bool {
    ||| name == encode_utf8(".git"@)
    ||| name == encode_utf8("node_modules"@)
    ||| name == encode_utf8("target"@)
    ||| name == encode_utf8("bin"@)
}

/// The files among the entries of `dir`.
pub open spec fn listed_files(dir: PathView, items: Seq<ItemView>) -> Seq<PathView>
    decreases items.len(),
{
    if items.len() == 0 {
        Seq::empty()
    } else {
        let before = listed_files(dir, items.drop_last());
        if items.last().is_dir {
            before
        } else {
            before.push(dir.join(items.last().name))
        }
    }
}

/// The directories among the entries of `dir` that a crawl goes into.
pub open spec fn listed_subdirs(dir: PathView, items: Seq<ItemView>) -> Seq<PathView>
    decreases items.len(),
{
    if items.len() == 0 {
        Seq::empty()
    } else {
        let before = listed_subdirs(dir, items.drop_last());
        if items.last().is_dir && !is_skipped(items.last().name) {
            before.push(dir.join(items.last().name))
        } else {
            before
        }
    }
}

/// The listing of `dir`; a directory that cannot be read has an empty one.
pub open spec fn listing(dir: PathView, mtime: i128, items: Option<Seq<ItemView>>) -> ListingView {
    let found = match items {
        Some(items) => items,
        None => Seq::empty(),
    };
    ListingView { mtime, files: listed_files(dir, found), subdirs: listed_subdirs(dir, found) }
}

/// Whether a crawl for `extensions` gives out the file at `path`: its extension has to be text
/// and one of `extensions`, or any text where `extensions` is empty.
pub open spec fn is_wanted(path: PathView, extensions: Seq<Seq<char>>) -> bool {
    match path.extension_text() {
        Some(ext) => extensions.len() == 0 || extensions.contains(ext),
        None => false,
    }
}

/// The files that a crawl for `extensions` gives out.
pub open spec fn keep_wanted(files: Seq<PathView>, extensions: Seq<Seq<char>>) -> Seq<PathView>
    decreases files.len(),
{
    if files.len() == 0 {
        Seq::empty()
    } else {
        let before = keep_wanted(files.drop_last(), extensions);
        if is_wanted(files.last(), extensions) {
            before.push(files.last())
        } else {
            before
        }
    }
}

/// A crawl under way: the files found, the directories still to visit (the next one last), and
/// the directory whose listing is awaited.
pub struct Crawl {
    pub out: Vec<RepoPath>,
    pub stats: CrawlStats,
    pub extensions: Vec<String>,
    pub pending: Vec<RepoPath>,
    pub awaited: Option<(RepoPath, i128)>,
}

/// What a `Crawl` stands for.
#[verifier::ext_equal]
pub struct CrawlView {
    pub out: Seq<PathView>,
    pub visited: int,
    pub rescanned: int,
    pub extensions: Seq<Seq<char>>,
    pub pending: Seq<PathView>,
    pub awaited: Option<(PathView, i128)>,
}

impl View for Crawl {
    type V = CrawlView;

    open spec fn view(&self) -> CrawlView {
        CrawlView {
            out: path_views(self.out@),
            visited: self.stats.dirs_visited as int,
            rescanned: self.stats.dirs_rescanned as int,
            extensions: views(self.extensions@),
            pending: path_views(self.pending@),
            awaited: match self.awaited {
                Some(a) => Some((a.0@, a.1)),
                None => None,
            },
        }
    }
}

/// What a crawl needs from the file system to go on.
pub enum CrawlNeed {
    /// The modification time of this directory.
    Mtime(RepoPath),
    /// The entries of this directory.
    Items(RepoPath),
    /// Nothing: the crawl is over.
    Nothing,
}

/// A crawl that goes through a listing: it takes the wanted files, and goes into the
/// subdirectories, the first one next.
pub open spec fn visit(crawl: CrawlView, entry: ListingView) -> CrawlView {
    CrawlView {
        out: crawl.out + keep_wanted(entry.files, crawl.extensions),
        pending: crawl.pending + entry.subdirs.reverse(),
        ..crawl
    }
}

/// A crawl that learns the modification time of its next directory, or that it has none.
pub open spec fn stat_step(
    cache: Map<PathView, ListingView>,
    crawl: CrawlView,
    mtime: Option<i128>,
) -> CrawlView {
    let dir = crawl.pending.last();
    let rest = CrawlView { pending: crawl.pending.drop_last(), ..crawl };
    match mtime {
        None => rest,
        Some(m) => {
            let counted = CrawlView { visited: crawl.visited + 1, ..rest };
            if cache.contains_key(dir) && cache[dir].mtime == m {
                visit(counted, cache[dir])
            } else {
                CrawlView { rescanned: crawl.rescanned + 1, awaited: Some((dir, m)), ..counted }
            }
        },
    }
}

/// A crawl that learns the entries of the directory that it awaits.
pub open spec fn scan_step(crawl: CrawlView, items: Option<Seq<ItemView>>) -> CrawlView {
    let (dir, m) = crawl.awaited->0;
    visit(CrawlView { awaited: None, ..crawl }, listing(dir, m, items))
}

/// Whether a crawl stays out of directories of this name.
fn is_skipped_name(name: &Vec<u8>) -> (r: bool)
    ensures
        r == is_skipped(name@),
{
    same_bytes(name.as_slice(), ".git".as_bytes()) || same_bytes(
        name.as_slice(),
        "node_modules".as_bytes(),
    ) || same_bytes(name.as_slice(), "target".as_bytes()) || same_bytes(
        name.as_slice(),
        "bin".as_bytes(),
    )
}

/// Sorts the entries of `dir` into files and subdirectories.
fn scan(dir: &RepoPath, mtime: i128, items: &Vec<DirItem>) -> (r: DirCacheEntry)
    ensures
        r@ == listing(dir@, mtime, Some(item_views(items@))),
{
    let mut files: Vec<RepoPath> = Vec::new();
    let mut subdirs: Vec<RepoPath> = Vec::new();
    let n: usize = items.len();
    let ghost all = item_views(items@);
    let mut i: usize = 0;
    assert(path_views(files@) =~= listed_files(dir@, all.take(0)));
    assert(path_views(subdirs@) =~= listed_subdirs(dir@, all.take(0)));
    while i < n
        invariant
            i <= n == items@.len(),
            all == item_views(items@),
            path_views(files@) == listed_files(dir@, all.take(i as int)),
            path_views(subdirs@) == listed_subdirs(dir@, all.take(i as int)),
        decreases n - i,
    {
        let item = &items[i];
        let ghost next = all.take(i + 1);
        assert(next.drop_last() =~= all.take(i as int));
        assert(next.last() == item@);
        let path = dir.join(&item.name);
        let ghost files_before = files@;
        let ghost subdirs_before = subdirs@;
        if item.is_dir {
            if !is_skipped_name(&item.name) {
                subdirs.push(path);
                assert(path_views(subdirs@) =~= path_views(subdirs_before).push(path@));
            }
        } else {
            files.push(path);
            assert(path_views(files@) =~= path_views(files_before).push(path@));
        }
        i = i + 1;
    }
    assert(all.take(n as int) =~= all);
    DirCacheEntry { mtime, files, subdirs }
}

/// Whether a crawl for `extensions` gives out the file at `path`.
fn wants(path: &RepoPath, extensions: &Vec<String>) -> (r: bool)
    ensures
        r == is_wanted(path@, views(extensions@)),
{
    match path.extension_text() {
        None => false,
        Some(ext) => {
            if extensions.len() == 0 {
                return true;
            }
            let n: usize = extensions.len();
            let mut i: usize = 0;
            while i < n
                invariant
                    i <= n == extensions@.len(),
                    path@.extension_text() == Some(ext@),
                    forall|j: int| 0 <= j < i ==> #[trigger] views(extensions@)[j] != ext@,
                decreases n - i,
            {
                if extensions[i] == ext {
                    assert(views(extensions@)[i as int] == ext@);
                    return true;
                }
                i = i + 1;
            }
            false
        },
    }
}

impl Crawl {
    /// What the crawl needs from the file system to go on.
    pub fn need(&self) -> (r: CrawlNeed)
        ensures
            match r {
                CrawlNeed::Items(dir) => self@.awaited matches Some(a) && a.0 == dir@,
                CrawlNeed::Mtime(dir) => self@.awaited is None && self@.pending.len() > 0
                    && self@.pending.last() == dir@,
                CrawlNeed::Nothing => self@.awaited is None && self@.pending.len() == 0,
            },
    {
        match &self.awaited {
            Some(a) => CrawlNeed::Items(a.0.copy()),
            None => {
                let n: usize = self.pending.len();
                if n == 0 {
                    CrawlNeed::Nothing
                } else {
                    CrawlNeed::Mtime(self.pending[n - 1].copy())
                }
            },
        }
    }

    /// Goes through a listing.
    fn visit(&mut self, entry: &DirCacheEntry)
        ensures
            final(self)@ == visit(old(self)@, entry@),
    {
        let n: usize = entry.files.len();
        let ghost files = path_views(entry.files@);
        let ghost exts = self@.extensions;
        let ghost start = self@;
        let mut i: usize = 0;
        assert(start.out + keep_wanted(files.take(0), exts) =~= start.out);
        while i < n
            invariant
                i <= n == entry.files@.len(),
                files == path_views(entry.files@),
                exts == views(self.extensions@),
                exts == start.extensions,
                self@ == (CrawlView {
                    out: start.out + keep_wanted(files.take(i as int), exts),
                    ..start
                }),
            decreases n - i,
        {
            let file = &entry.files[i];
            let ghost next = files.take(i + 1);
            assert(next.drop_last() =~= files.take(i as int));
            assert(next.last() == file@);
            if wants(file, &self.extensions) {
                let path = file.copy();
                let ghost before = self.out@;
                self.out.push(path);
                assert(path_views(self.out@) =~= path_views(before).push(path@));
                assert(self@.out =~= start.out + keep_wanted(next, exts));
            }
            i = i + 1;
        }
        assert(files.take(n as int) =~= files);
        let ghost mid = self@;
        let ghost subs = path_views(entry.subdirs@);
        let mut j: usize = entry.subdirs.len();
        assert(mid.pending + subs.skip(j as int).reverse() =~= mid.pending);
        while j > 0
            invariant
                j <= entry.subdirs@.len(),
                subs == path_views(entry.subdirs@),
                self@ == (CrawlView {
                    pending: mid.pending + subs.skip(j as int).reverse(),
                    ..mid
                }),
            decreases j,
        {
            j = j - 1;
            let path = entry.subdirs[j].copy();
            let ghost before = self.pending@;
            self.pending.push(path);
            assert(path_views(self.pending@) =~= path_views(before).push(path@));
            assert(subs.skip(j as int).reverse() =~= subs.skip(j + 1).reverse().push(subs[j as int]));
            assert(self@.pending =~= mid.pending + subs.skip(j as int).reverse());
        }
        assert(subs.skip(0) =~= subs);
    }
}

/// Cached directory listings, by path.
pub struct DirCache {
    entries: PathTable<DirCacheEntry>,
}

impl View for DirCache {
    type V = Map<PathView, ListingView>;

    closed spec fn view(&self) -> Map<PathView, ListingView> {
        self.entries@.map_values(|e: DirCacheEntry| e@)
    }
}

impl DirCache {
    /// The table of listings is in order.
    pub closed spec fn wf(self) -> bool {
        self.entries.wf()
    }

    /// The cache that holds no listing.
    pub fn new() -> (r: DirCache)
        ensures
            r.wf(),
            r@ == Map::<PathView, ListingView>::empty(),
    {
        let r = DirCache { entries: PathTable::new() };
        assert(r@ =~= Map::<PathView, ListingView>::empty());
        r
    }

    /// Starts a crawl of the tree under `dir`, for the files that have one of `extensions` (any
    /// extension, where there are none). What it finds is added behind `out`.
    pub fn crawl(dir: &RepoPath, extensions: Vec<String>, out: Vec<RepoPath>) -> (r: Crawl)
        ensures
            r@ == (CrawlView {
                out: path_views(out@),
                visited: 0,
                rescanned: 0,
                extensions: views(extensions@),
                pending: seq![dir@],
                awaited: None,
            }),
    {
        let mut pending: Vec<RepoPath> = Vec::new();
        pending.push(dir.copy());
        let r = Crawl { out, stats: CrawlStats::default(), extensions, pending, awaited: None };
        assert(path_views(r.pending@) =~= seq![dir@]);
        r
    }

    /// Takes the crawl on to its next directory, whose modification time is `mtime`; a directory
    /// without one is left out. A cached listing of that time is gone through at once. Otherwise
    /// the crawl awaits the directory's entries.
    pub fn crawl_inner(&self, crawl: &mut Crawl, mtime: Option<i128>)
        requires
            self.wf(),
            old(crawl)@.awaited is None,
            old(crawl)@.pending.len() > 0,
            old(crawl)@.visited < usize::MAX,
            old(crawl)@.rescanned < usize::MAX,
        ensures
            final(crawl)@ == stat_step(self@, old(crawl)@, mtime),
    {
        let ghost start = crawl@;
        let ghost before = crawl.pending@;
        match crawl.pending.pop() {
            None => {},
            Some(dir) => {
                assert(dir@ == start.pending.last());
                assert(path_views(crawl.pending@) =~= start.pending.drop_last());
                match mtime {
                    None => {},
                    Some(m) => {
                        crawl.stats.dirs_visited = crawl.stats.dirs_visited + 1;
                        match self.entries.get(&dir) {
                            Some(entry) if entry.mtime == m => {
                                crawl.visit(entry);
                            },
                            _ => {
                                crawl.stats.dirs_rescanned = crawl.stats.dirs_rescanned + 1;
                                crawl.awaited = Some((dir, m));
                            },
                        }
                    },
                }
            },
        }
    }

    /// Takes in the entries of the directory that the crawl awaits (none where the directory
    /// could not be read): caches its listing and goes through it.
    pub fn rescan(&mut self, crawl: &mut Crawl, items: Option<Vec<DirItem>>)
        requires
            old(self).wf(),
            old(crawl)@.awaited is Some,
        ensures
            final(self).wf(),
            ({
                let (dir, m) = old(crawl)@.awaited->0;
                let found = match items {
                    Some(items) => Some(item_views(items@)),
                    None => None,
                };
                &&& final(self)@ == old(self)@.insert(dir, listing(dir, m, found))
                &&& final(crawl)@ == scan_step(old(crawl)@, found)
            }),
    {
        let ghost start = crawl@;
        match crawl.awaited.take() {
            None => {},
            Some(a) => {
                let (dir, m) = a;
                let found: Vec<DirItem> = match items {
                    Some(items) => items,
                    None => Vec::new(),
                };
                let entry = scan(&dir, m, &found);
                proof {
                    if items is None {
                        assert(item_views(found@) =~= Seq::<ItemView>::empty());
                    }
                }
                crawl.visit(&entry);
                self.entries.insert(&dir, entry);
                assert(self@ =~= old(self)@.insert(dir@, entry@));
            },
        }
    }

    /// Forgets the listing of `dir`, so that the next crawl through it lists it anew. A directory
    /// without a cached listing stays without one.
    pub fn invalidate(&mut self, dir: &RepoPath)
        requires
            old(self).wf(),
        ensures
            final(self).wf(),
            final(self)@ == old(self)@.remove(dir@),
    {
        self.entries.remove(dir);
        assert(self@ =~= old(self)@.remove(dir@));
    }
}

} // verus!
