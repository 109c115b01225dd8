//! What a whole crawl gives, over a file system that stands still.

use vstd::prelude::*;

use crate::dir_cache::{
    is_skipped, keep_wanted, listed_files, listed_subdirs, listing, scan_step, stat_step, CrawlView,
    ItemView, ListingView,
};
use crate::paths::PathView;

verus! {

/// What a file system says of a directory: its modification time and its entries, where it has
/// them to give.
pub struct DirFacts {
    pub mtime: Option<i128>,
    pub items: Option<Seq<ItemView>>,
}

/// A directory, with the directories that a crawl goes into from it.
pub struct DirTree {
    pub path: PathView,
    pub kids: Seq<DirTree>,
}

/// The paths at the roots of `forest`.
pub open spec fn roots(forest: Seq<DirTree>) -> Seq<PathView> {
    Seq::new(forest.len(), |i: int| forest[i].path)
}

/// The listing of the directory at `path`.
pub open spec fn true_listing(fs: spec_fn(PathView) -> DirFacts, path: PathView) -> ListingView {
    listing(path, fs(path).mtime->0, fs(path).items)
}

/// Whether `tree` is the tree of directories that `fs` holds at its path.
pub open spec fn is_tree_of(fs: spec_fn(PathView) -> DirFacts, tree: DirTree) -> bool
    decreases tree,
{
    &&& fs(tree.path).mtime is None ==> tree.kids.len() == 0
    &&& fs(tree.path).mtime is Some ==> roots(tree.kids) == true_listing(fs, tree.path).subdirs
    &&& forall|i: int| 0 <= i < tree.kids.len() ==> is_tree_of(fs, #[trigger] tree.kids[i])
}

/// Whether each tree of `forest` is the one that `fs` holds at its path.
pub open spec fn is_forest_of(fs: spec_fn(PathView) -> DirFacts, forest: Seq<DirTree>) -> bool {
    forall|i: int| 0 <= i < forest.len() ==> is_tree_of(fs, #[trigger] forest[i])
}

/// The wanted files of a forest: tree by tree, those of a directory before those of its
/// subdirectories.
pub open spec fn files_of(
    fs: spec_fn(PathView) -> DirFacts,
    forest: Seq<DirTree>,
    extensions: Seq<Seq<char>>,
) -> Seq<PathView>
    decreases forest,
{
    if forest.len() == 0 {
        Seq::empty()
    } else {
        let first = forest[0];
        let own = if fs(first.path).mtime is Some {
            keep_wanted(true_listing(fs, first.path).files, extensions)
        } else {
            Seq::empty()
        };
        own + files_of(fs, first.kids, extensions) + files_of(
            fs,
            forest.subrange(1, forest.len() as int),
            extensions,
        )
    }
}

/// The directories of a forest that have a modification time, in the order of a crawl.
pub open spec fn dirs_of(fs: spec_fn(PathView) -> DirFacts, forest: Seq<DirTree>) -> Seq<PathView>
    decreases forest,
{
    if forest.len() == 0 {
        Seq::empty()
    } else {
        let first = forest[0];
        let own = if fs(first.path).mtime is Some {
            seq![first.path]
        } else {
            Seq::empty()
        };
        own + dirs_of(fs, first.kids) + dirs_of(fs, forest.subrange(1, forest.len() as int))
    }
}

/// How many directories a forest has.
pub open spec fn size_of_forest(forest: Seq<DirTree>) -> nat
    decreases forest,
{
    if forest.len() == 0 {
        0
    } else {
        1 + size_of_forest(forest[0].kids) + size_of_forest(
            forest.subrange(1, forest.len() as int),
        )
    }
}

/// The directories of two forests side by side.
pub proof fn lemma_size_concat(a: Seq<DirTree>, b: Seq<DirTree>)
    ensures
        size_of_forest(a + b) == size_of_forest(a) + size_of_forest(b),
    decreases a.len(),
{
    if a.len() == 0 {
        assert(a + b =~= b);
    } else {
        let rest = a.subrange(1, a.len() as int);
        assert((a + b).subrange(1, (a + b).len() as int) =~= rest + b);
        lemma_size_concat(rest, b);
    }
}

proof fn lemma_files_concat(
    fs: spec_fn(PathView) -> DirFacts,
    a: Seq<DirTree>,
    b: Seq<DirTree>,
    extensions: Seq<Seq<char>>,
)
    ensures
        files_of(fs, a + b, extensions) == files_of(fs, a, extensions) + files_of(
            fs,
            b,
            extensions,
        ),
    decreases a.len(),
{
    if a.len() == 0 {
        assert(a + b =~= b);
        assert(files_of(fs, a, extensions) + files_of(fs, b, extensions) =~= files_of(
            fs,
            b,
            extensions,
        ));
    } else {
        let rest = a.subrange(1, a.len() as int);
        assert((a + b).subrange(1, (a + b).len() as int) =~= rest + b);
        lemma_files_concat(fs, rest, b, extensions);
        assert(files_of(fs, a + b, extensions) =~= files_of(fs, a, extensions) + files_of(
            fs,
            b,
            extensions,
        ));
    }
}

proof fn lemma_dirs_concat(
    fs: spec_fn(PathView) -> DirFacts,
    a: Seq<DirTree>,
    b: Seq<DirTree>,
)
    ensures
        dirs_of(fs, a + b) == dirs_of(fs, a) + dirs_of(fs, b),
    decreases a.len(),
{
    if a.len() == 0 {
        assert(a + b =~= b);
        assert(dirs_of(fs, a) + dirs_of(fs, b) =~= dirs_of(fs, b));
    } else {
        let rest = a.subrange(1, a.len() as int);
        assert((a + b).subrange(1, (a + b).len() as int) =~= rest + b);
        lemma_dirs_concat(fs, rest, b);
        assert(dirs_of(fs, a + b) =~= dirs_of(fs, a) + dirs_of(fs, b));
    }
}

/// The cache and the crawl after one directory, answered by `fs`.
pub open spec fn crawl_dir(
    fs: spec_fn(PathView) -> DirFacts,
    cache: Map<PathView, ListingView>,
    crawl: CrawlView,
) -> (Map<PathView, ListingView>, CrawlView) {
    let dir = crawl.pending.last();
    let next = stat_step(cache, crawl, fs(dir).mtime);
    if next.awaited is Some {
        (cache.insert(dir, true_listing(fs, dir)), scan_step(next, fs(dir).items))
    } else {
        (cache, next)
    }
}

/// The cache and the crawl at the end of a crawl of `forest`, answered by `fs`.
pub open spec fn crawl_all(
    fs: spec_fn(PathView) -> DirFacts,
    cache: Map<PathView, ListingView>,
    crawl: CrawlView,
    forest: Seq<DirTree>,
) -> (Map<PathView, ListingView>, CrawlView)
    decreases size_of_forest(forest),
{
    if forest.len() == 0 {
        (cache, crawl)
    } else {
        let (cache1, crawl1) = crawl_dir(fs, cache, crawl);
        let rest = forest[0].kids + forest.subrange(1, forest.len() as int);
        proof {
            lemma_size_concat(forest[0].kids, forest.subrange(1, forest.len() as int));
        }
        crawl_all(fs, cache1, crawl1, rest)
    }
}

/// Whether every cached listing that still carries its directory's modification time is the
/// directory's listing.
pub open spec fn is_true_to(
    cache: Map<PathView, ListingView>,
    fs: spec_fn(PathView) -> DirFacts,
) -> bool {
    forall|p: PathView| #[trigger]
        cache.contains_key(p) && fs(p).mtime == Some(cache[p].mtime) ==> cache[p] == true_listing(
            fs,
            p,
        )
}

/// Whether the listing of `p` is cached with the modification time that the directory has.
pub open spec fn is_fresh(
    cache: Map<PathView, ListingView>,
    fs: spec_fn(PathView) -> DirFacts,
    p: PathView,
) -> bool {
    cache.contains_key(p) && fs(p).mtime == Some(cache[p].mtime)
}

/// A crawl set to go through `forest`.
pub open spec fn is_ready_for(crawl: CrawlView, forest: Seq<DirTree>) -> bool {
    &&& crawl.awaited is None
    &&& crawl.pending == roots(forest).reverse()
}

/// One directory's step of a crawl of a forest.
proof fn lemma_crawl_dir(
    fs: spec_fn(PathView) -> DirFacts,
    cache: Map<PathView, ListingView>,
    crawl: CrawlView,
    forest: Seq<DirTree>,
)
    requires
        forest.len() > 0,
        is_forest_of(fs, forest),
        is_true_to(cache, fs),
        is_ready_for(crawl, forest),
    ensures
        ({
            let first = forest[0];
            let rest = first.kids + forest.subrange(1, forest.len() as int);
            let (cache1, crawl1) = crawl_dir(fs, cache, crawl);
            &&& crawl.pending.last() == first.path
            &&& is_forest_of(fs, rest)
            &&& is_true_to(cache1, fs)
            &&& is_ready_for(crawl1, rest)
            &&& crawl1.extensions == crawl.extensions
            &&& crawl1.out == crawl.out + (if fs(first.path).mtime is Some {
                keep_wanted(true_listing(fs, first.path).files, crawl.extensions)
            } else {
                Seq::empty()
            })
            &&& crawl1.visited == crawl.visited + (if fs(first.path).mtime is Some {
                1int
            } else {
                0
            })
            &&& crawl1.rescanned == crawl.rescanned + (if fs(first.path).mtime is Some && !is_fresh(
                cache,
                fs,
                first.path,
            ) {
                1int
            } else {
                0
            })
            &&& fs(first.path).mtime is Some ==> is_fresh(cache1, fs, first.path)
            &&& forall|p: PathView| is_fresh(cache, fs, p) ==> #[trigger] is_fresh(cache1, fs, p)
            &&& is_fresh(cache, fs, first.path) ==> cache1 == cache
            &&& fs(first.path).mtime is None ==> cache1 == cache
        }),
{
    let first = forest[0];
    let tail = forest.subrange(1, forest.len() as int);
    let rest = first.kids + tail;
    let dir = first.path;
    let (cache1, crawl1) = crawl_dir(fs, cache, crawl);
    assert(roots(forest).reverse().last() == roots(forest)[0]);
    assert(crawl.pending.drop_last() =~= roots(tail).reverse());
    assert(is_tree_of(fs, first));
    assert forall|i: int| 0 <= i < rest.len() implies is_tree_of(fs, #[trigger] rest[i]) by {
        if i < first.kids.len() {
            assert(rest[i] == first.kids[i]);
        } else {
            assert(rest[i] == forest[i - first.kids.len() + 1]);
        }
    }
    assert(roots(rest) =~= roots(first.kids) + roots(tail));
    assert(roots(rest).reverse() =~= roots(tail).reverse() + roots(first.kids).reverse());
    if fs(dir).mtime is Some {
        if is_fresh(cache, fs, dir) {
            assert(cache[dir] == true_listing(fs, dir));
        }
    } else {
        assert(roots(first.kids).reverse() =~= Seq::<PathView>::empty());
        assert(crawl1.pending =~= roots(rest).reverse());
        assert(crawl1.out =~= crawl.out + Seq::<PathView>::empty());
    }
}

/// A crawl of a tree ends, and gives out the wanted files of the tree in order: those of a
/// directory, then those of its subdirectories. It visits every directory of the tree that has a
/// modification time, and leaves a fresh and true listing of each of them in the cache.
pub proof fn law_crawl_gives_the_tree(
    fs: spec_fn(PathView) -> DirFacts,
    cache: Map<PathView, ListingView>,
    crawl: CrawlView,
    forest: Seq<DirTree>,
)
    requires
        is_forest_of(fs, forest),
        is_true_to(cache, fs),
        is_ready_for(crawl, forest),
    ensures
        ({
            let (cache1, crawl1) = crawl_all(fs, cache, crawl, forest);
            &&& crawl1.awaited is None
            &&& crawl1.pending.len() == 0
            &&& crawl1.out == crawl.out + files_of(fs, forest, crawl.extensions)
            &&& crawl1.visited == crawl.visited + dirs_of(fs, forest).len()
            &&& crawl.rescanned <= crawl1.rescanned <= crawl.rescanned + dirs_of(fs, forest).len()
            &&& is_true_to(cache1, fs)
            &&& forall|p: PathView|
                is_fresh(cache, fs, p) || dirs_of(fs, forest).contains(p) ==> #[trigger] is_fresh(
                    cache1,
                    fs,
                    p,
                )
        }),
    decreases size_of_forest(forest),
{
    if forest.len() == 0 {
        assert(crawl.out + files_of(fs, forest, crawl.extensions) =~= crawl.out);
    } else {
        let first = forest[0];
        let tail = forest.subrange(1, forest.len() as int);
        let rest = first.kids + tail;
        let (cache1, crawl1) = crawl_dir(fs, cache, crawl);
        lemma_crawl_dir(fs, cache, crawl, forest);
        lemma_size_concat(first.kids, tail);
        law_crawl_gives_the_tree(fs, cache1, crawl1, rest);
        lemma_files_concat(fs, first.kids, tail, crawl.extensions);
        lemma_dirs_concat(fs, first.kids, tail);
        let (cache2, crawl2) = crawl_all(fs, cache1, crawl1, rest);
        assert(crawl2.out =~= crawl.out + files_of(fs, forest, crawl.extensions));
        let own = if fs(first.path).mtime is Some {
            seq![first.path]
        } else {
            Seq::<PathView>::empty()
        };
        assert(dirs_of(fs, forest) =~= own + dirs_of(fs, rest));
        assert forall|p: PathView|
            is_fresh(cache, fs, p) || dirs_of(fs, forest).contains(p) implies #[trigger] is_fresh(
            cache2,
            fs,
            p,
        ) by {
            if is_fresh(cache, fs, p) {
                assert(is_fresh(cache1, fs, p));
            } else {
                let i = choose|i: int|
                    0 <= i < dirs_of(fs, forest).len() && dirs_of(fs, forest)[i] == p;
                if i < own.len() {
                    assert(p == first.path);
                    assert(is_fresh(cache1, fs, p));
                } else {
                    assert(dirs_of(fs, rest)[i - own.len()] == p);
                }
            }
        }
    }
}

/// A crawl through directories whose cached listings are all fresh lists none of them anew, and
/// leaves the cache as it is.
pub proof fn law_fresh_listings_are_not_rescanned(
    fs: spec_fn(PathView) -> DirFacts,
    cache: Map<PathView, ListingView>,
    crawl: CrawlView,
    forest: Seq<DirTree>,
)
    requires
        is_forest_of(fs, forest),
        is_true_to(cache, fs),
        is_ready_for(crawl, forest),
        forall|p: PathView| dirs_of(fs, forest).contains(p) ==> #[trigger] is_fresh(cache, fs, p),
    ensures
        crawl_all(fs, cache, crawl, forest).0 == cache,
        crawl_all(fs, cache, crawl, forest).1.rescanned == crawl.rescanned,
    decreases size_of_forest(forest),
{
    if forest.len() > 0 {
        let first = forest[0];
        let tail = forest.subrange(1, forest.len() as int);
        let rest = first.kids + tail;
        let (cache1, crawl1) = crawl_dir(fs, cache, crawl);
        lemma_crawl_dir(fs, cache, crawl, forest);
        lemma_size_concat(first.kids, tail);
        lemma_dirs_concat(fs, first.kids, tail);
        let own = if fs(first.path).mtime is Some {
            seq![first.path]
        } else {
            Seq::<PathView>::empty()
        };
        assert(dirs_of(fs, forest) =~= own + dirs_of(fs, rest));
        if fs(first.path).mtime is Some {
            assert(dirs_of(fs, forest)[0] == first.path);
            assert(is_fresh(cache, fs, first.path));
        }
        assert forall|p: PathView| dirs_of(fs, rest).contains(p) implies #[trigger] is_fresh(
            cache1,
            fs,
            p,
        ) by {
            let i = choose|i: int| 0 <= i < dirs_of(fs, rest).len() && dirs_of(fs, rest)[i] == p;
            assert(dirs_of(fs, forest)[own.len() + i] == p);
            assert(is_fresh(cache, fs, p));
        }
        law_fresh_listings_are_not_rescanned(fs, cache1, crawl1, rest);
    }
}

/// A second crawl of a tree that has not changed lists no directory, and finds the same files.
pub proof fn law_second_crawl_rescans_nothing(
    fs: spec_fn(PathView) -> DirFacts,
    cache: Map<PathView, ListingView>,
    first: CrawlView,
    second: CrawlView,
    forest: Seq<DirTree>,
)
    requires
        is_forest_of(fs, forest),
        is_true_to(cache, fs),
        is_ready_for(first, forest),
        is_ready_for(second, forest),
        first.extensions == second.extensions,
    ensures
        ({
            let (cache1, done1) = crawl_all(fs, cache, first, forest);
            let (cache2, done2) = crawl_all(fs, cache1, second, forest);
            let found = files_of(fs, forest, first.extensions);
            &&& done1.out == first.out + found
            &&& done2.out == second.out + found
            &&& done2.rescanned == second.rescanned
            &&& cache2 == cache1
        }),
{
    law_crawl_gives_the_tree(fs, cache, first, forest);
    let (cache1, done1) = crawl_all(fs, cache, first, forest);
    law_crawl_gives_the_tree(fs, cache1, second, forest);
    law_fresh_listings_are_not_rescanned(fs, cache1, second, forest);
}

/// A directory whose cached listing is of another time, or has been forgotten, is listed anew.
pub proof fn law_stale_listing_is_rescanned(
    fs: spec_fn(PathView) -> DirFacts,
    cache: Map<PathView, ListingView>,
    crawl: CrawlView,
)
    requires
        crawl.awaited is None,
        crawl.pending.len() > 0,
        fs(crawl.pending.last()).mtime is Some,
        !is_fresh(cache, fs, crawl.pending.last()),
    ensures
        crawl_dir(fs, cache, crawl).1.rescanned == crawl.rescanned + 1,
        crawl_dir(fs, cache, crawl).0 == cache.insert(
            crawl.pending.last(),
            true_listing(fs, crawl.pending.last()),
        ),
{
}

/// Whether `items` has an entry of `dir` at `path`, a directory to go into or a file.
pub open spec fn has_entry(dir: PathView, items: Seq<ItemView>, path: PathView, is_dir: bool) -> bool {
    exists|j: int|
        #![trigger items[j]]
        0 <= j < items.len() && items[j].is_dir == is_dir && path == dir.join(items[j].name) && (
        is_dir ==> !is_skipped(items[j].name))
}

/// The directories that a listing leads into are entries of the listed directory that are
/// directories, none of them of a skipped name; its files are entries that are no directories.
pub proof fn law_skipped_directories_are_left_out(dir: PathView, items: Seq<ItemView>)
    ensures
        forall|i: int|
            0 <= i < listed_subdirs(dir, items).len() ==> has_entry(
                dir,
                items,
                #[trigger] listed_subdirs(dir, items)[i],
                true,
            ),
        forall|i: int|
            0 <= i < listed_files(dir, items).len() ==> has_entry(
                dir,
                items,
                #[trigger] listed_files(dir, items)[i],
                false,
            ),
    decreases items.len(),
{
    if items.len() > 0 {
        let before = items.drop_last();
        law_skipped_directories_are_left_out(dir, before);
        let last = items[items.len() - 1];
        assert forall|path: PathView, is_dir: bool|
            has_entry(dir, before, path, is_dir) implies #[trigger] has_entry(
            dir,
            items,
            path,
            is_dir,
        ) by {
            let j = choose|j: int|
                #![trigger before[j]]
                0 <= j < before.len() && before[j].is_dir == is_dir && path == dir.join(
                    before[j].name,
                ) && (is_dir ==> !is_skipped(before[j].name));
            assert(items[j] == before[j]);
        }
        assert forall|i: int| 0 <= i < listed_subdirs(dir, items).len() implies has_entry(
            dir,
            items,
            #[trigger] listed_subdirs(dir, items)[i],
            true,
        ) by {
            if i < listed_subdirs(dir, before).len() {
                assert(listed_subdirs(dir, items)[i] == listed_subdirs(dir, before)[i]);
                assert(has_entry(dir, before, listed_subdirs(dir, before)[i], true));
            }
        }
        assert forall|i: int| 0 <= i < listed_files(dir, items).len() implies has_entry(
            dir,
            items,
            #[trigger] listed_files(dir, items)[i],
            false,
        ) by {
            if i < listed_files(dir, before).len() {
                assert(listed_files(dir, items)[i] == listed_files(dir, before)[i]);
                assert(has_entry(dir, before, listed_files(dir, before)[i], false));
            }
        }
    }
}

} // verus!
