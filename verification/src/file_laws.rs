//! What is read of files and directories, in terms of what the file system gave.

use std::sync::Arc;
use vstd::prelude::*;
use vstd::utf8::*;

use crate::cache::{served, Stamped};
use crate::content::{cached, is_lookup, is_reading, Content, FileNow, Stamp};
use crate::dir_cache::{
    is_wanted, keep_wanted, listed_files, listed_subdirs, listing, scan_step, stat_step, visit,
    CrawlView, ItemView, ListingView,
};
use crate::paths::PathView;

verus! {

/// The bytes of a file give its text exactly if they are valid UTF-8, however many there are: the
/// text is the one that they encode. Where the file's modification time and length are known, the
/// cache serves that text from then on while they are the same; else the cache stays as it is. A
/// file without bytes, or with other bytes, has no text, and the cache stays as it is.
pub proof fn law_every_valid_text_is_read(
    before: Map<PathView, Stamped<String>>,
    after: Map<PathView, Stamped<String>>,
    path: PathView,
    stamp: Stamp,
    bytes: Option<Seq<u8>>,
    content: Content,
)
    requires
        is_reading(before, after, path, stamp, bytes, content),
    ensures
        content is Read <==> (bytes matches Some(b) && valid_utf8(b)),
        content is Missing <==> !(bytes matches Some(b) && valid_utf8(b)),
        content matches Content::Read(text) ==> text@ == decode_utf8(bytes->0),
        content matches Content::Read(text) ==> (stamp matches Some((mtime, len)) ==> after
            == before.insert(path, Stamped { mtime, len, value: text }) && cached(
            after,
            path,
            stamp,
        ) == Some(text)),
        content is Missing || stamp is None ==> after == before,
{
}

/// A cache serves the value of a file exactly if it holds one that was recorded under the
/// modification time and the length that the file has.
pub proof fn law_values_are_served_while_fresh<T>(
    cache: Map<PathView, Stamped<T>>,
    path: PathView,
    mtime: i128,
    len: u64,
    value: Arc<T>,
)
    ensures
        served(cache, path, mtime, len) == Some(value) <==> cache.contains_key(path) && cache[path]
            == (Stamped { mtime, len, value }),
        served(cache, path, mtime, len) is None <==> !cache.contains_key(path) || cache[path].mtime
            != mtime || cache[path].len != len,
{
}

/// A file is looked up in the cache if its modification time and length are known, and is read if
/// the cache holds nothing recorded under both.
pub proof fn law_files_are_read_if_not_cached(
    before: Map<PathView, Stamped<String>>,
    after: Map<PathView, Stamped<String>>,
    path: PathView,
    now: FileNow,
    content: Content,
)
    requires
        is_lookup(before, after, path, now, content),
    ensures
        ({
            let fresh = now.stamp matches Some((mtime, len)) && before.contains_key(path)
                && before[path].mtime == mtime && before[path].len == len;
            &&& fresh ==> content == Content::Cached(before[path].value) && after == before
            &&& !fresh ==> match now.bytes {
                Some(b) => if valid_utf8(b) {
                    content matches Content::Read(text) && text@ == decode_utf8(b)
                } else {
                    content is Missing
                },
                None => content is Missing,
            }
            &&& cached(before, path, now.stamp) is Some <==> fresh
        }),
{
}

/// Whether a file may be given out in a crawl for `extensions`.
spec fn has_one_of(p: PathView, extensions: Seq<Seq<char>>) -> bool {
    p.extension_text() matches Some(e) && (extensions.len() == 0 || exists|j: int|
        0 <= j < extensions.len() && extensions[j] == e)
}

/// A crawl gives out exactly those files whose extension is a text and, where extensions are asked
/// for, is one of them, in their order.
pub proof fn law_files_are_wanted_by_extension(files: Seq<PathView>, extensions: Seq<Seq<char>>)
    ensures
        keep_wanted(files, extensions) == files.filter(
            |p: PathView|
                p.extension_text() matches Some(e) && (extensions.len() == 0 || exists|j: int|
                    0 <= j < extensions.len() && extensions[j] == e),
        ),
        forall|p: PathView| #[trigger]
            keep_wanted(files, extensions).contains(p) <==> files.contains(p) && (
            p.extension_text() matches Some(e) && (extensions.len() == 0 || exists|j: int|
                0 <= j < extensions.len() && extensions[j] == e)),
{
    let wanted = |p: PathView|
        p.extension_text() matches Some(e) && (extensions.len() == 0 || exists|j: int|
            0 <= j < extensions.len() && extensions[j] == e);
    lemma_keep_wanted(files, extensions, wanted);
    assert forall|p: PathView| #[trigger]
        keep_wanted(files, extensions).contains(p) == (files.contains(p) && wanted(p)) by {
        lemma_filter_contains(files, wanted, p);
    }
}

proof fn lemma_keep_wanted(
    files: Seq<PathView>,
    extensions: Seq<Seq<char>>,
    wanted: spec_fn(PathView) -> bool,
)
    requires
        forall|p: PathView| #[trigger] wanted(p) == has_one_of(p, extensions),
    ensures
        keep_wanted(files, extensions) == files.filter(wanted),
    decreases files.len(),
{
    reveal(Seq::filter);
    if files.len() > 0 {
        lemma_keep_wanted(files.drop_last(), extensions, wanted);
        let p = files.last();
        assert(wanted(p) == is_wanted(p, extensions)) by {
            if is_wanted(p, extensions) && extensions.len() > 0 {
                let e = p.extension_text()->0;
                let j = choose|j: int| 0 <= j < extensions.len() && extensions[j] == e;
                assert(extensions[j] == e);
            }
        }
    }
}

proof fn lemma_filter_contains<A>(s: Seq<A>, kept: spec_fn(A) -> bool, a: A)
    ensures
        s.filter(kept).contains(a) <==> s.contains(a) && kept(a),
    decreases s.len(),
{
    reveal(Seq::filter);
    if s.len() > 0 {
        let front = s.drop_last();
        lemma_filter_contains(front, kept, a);
        let before = front.filter(kept);
        if front.contains(a) {
            let i = choose|i: int| 0 <= i < front.len() && front[i] == a;
            assert(s[i] == a);
        }
        if s.contains(a) && a != s.last() {
            let i = choose|i: int| 0 <= i < s.len() && s[i] == a;
            assert(front[i] == a);
        }
        if s.contains(a) || a == s.last() {
            assert(s[s.len() - 1] == s.last());
        }
        if kept(s.last()) {
            let after = before.push(s.last());
            if before.contains(a) {
                let i = choose|i: int| 0 <= i < before.len() && before[i] == a;
                assert(after[i] == a);
            }
            if a == s.last() {
                assert(after[before.len() as int] == a);
            }
            if after.contains(a) && a != s.last() {
                let i = choose|i: int| 0 <= i < after.len() && after[i] == a;
                assert(before[i] == a);
            }
        }
    }
}

/// The listing of a directory holds its files and those of its subdirectories that are not called
/// `.git`, `node_modules`, `target` or `bin`, each as an entry of the directory, in their order. A
/// directory that cannot be read has an empty listing.
pub proof fn law_listings_hold_the_entries(
    dir: PathView,
    mtime: i128,
    items: Seq<ItemView>,
)
    ensures
        ({
            let found = listing(dir, mtime, Some(items));
            &&& found.mtime == mtime
            &&& found.files == items.filter(|i: ItemView| !i.is_dir).map_values(
                |i: ItemView| dir.join(i.name),
            )
            &&& found.subdirs == items.filter(
                |i: ItemView|
                    i.is_dir && i.name != encode_utf8(".git"@) && i.name != encode_utf8(
                        "node_modules"@,
                    ) && i.name != encode_utf8("target"@) && i.name != encode_utf8("bin"@),
            ).map_values(|i: ItemView| dir.join(i.name))
        }),
        listing(dir, mtime, None).mtime == mtime,
        listing(dir, mtime, None).files.len() == 0,
        listing(dir, mtime, None).subdirs.len() == 0,
{
    lemma_listed(dir, items);
}

proof fn lemma_listed(dir: PathView, items: Seq<ItemView>)
    ensures
        listed_files(dir, items) == items.filter(|i: ItemView| !i.is_dir).map_values(
            |i: ItemView| dir.join(i.name),
        ),
        listed_subdirs(dir, items) == items.filter(
            |i: ItemView|
                i.is_dir && i.name != encode_utf8(".git"@) && i.name != encode_utf8(
                    "node_modules"@,
                ) && i.name != encode_utf8("target"@) && i.name != encode_utf8("bin"@),
        ).map_values(|i: ItemView| dir.join(i.name)),
    decreases items.len(),
{
    reveal(Seq::filter);
    let is_file = |i: ItemView| !i.is_dir;
    let is_entered = |i: ItemView|
        i.is_dir && i.name != encode_utf8(".git"@) && i.name != encode_utf8("node_modules"@)
            && i.name != encode_utf8("target"@) && i.name != encode_utf8("bin"@);
    let joined = |i: ItemView| dir.join(i.name);
    if items.len() > 0 {
        let front = items.drop_last();
        let last = items.last();
        lemma_listed(dir, front);
        let files = front.filter(is_file);
        let entered = front.filter(is_entered);
        assert(files.push(last).map_values(joined) =~= files.map_values(joined).push(joined(last)));
        assert(entered.push(last).map_values(joined) =~= entered.map_values(joined).push(
            joined(last),
        ));
        assert(listed_files(dir, front) == files.map_values(joined));
        assert(listed_subdirs(dir, front) == entered.map_values(joined));
        assert(items.filter(is_file) == if is_file(last) {
            files.push(last)
        } else {
            files
        });
        assert(items.filter(is_entered) == if is_entered(last) {
            entered.push(last)
        } else {
            entered
        });
    } else {
        assert(items.filter(is_file).map_values(joined) =~= Seq::<PathView>::empty());
        assert(items.filter(is_entered).map_values(joined) =~= Seq::<PathView>::empty());
    }
}

/// Whether a crawl has gone on from `before` to `after` through a listing: it has taken the files
/// of the listing whose extension is asked for, and put the subdirectories in front of what it goes
/// into next.
pub open spec fn has_gone_through(
    before: CrawlView,
    after: CrawlView,
    entry: ListingView,
) -> bool {
    &&& after.out == before.out + entry.files.filter(
        |p: PathView|
            p.extension_text() matches Some(e) && (before.extensions.len() == 0 || exists|j: int|
                0 <= j < before.extensions.len() && before.extensions[j] == e),
    )
    &&& after.pending.len() == before.pending.len() + entry.subdirs.len()
    &&& after.pending.take(before.pending.len() as int) == before.pending
    &&& forall|i: int|
        0 <= i < entry.subdirs.len() ==> after.pending[after.pending.len() - 1 - i]
            == #[trigger] entry.subdirs[i]
    &&& after.extensions == before.extensions
    &&& after.awaited is None
    &&& after.visited == before.visited
    &&& after.rescanned == before.rescanned
}

/// What a crawl takes from a listing are the files whose extension is asked for, behind those that
/// it has, and the subdirectories, the first of which it goes into next. Nothing else changes.
pub proof fn law_what_a_crawl_takes_from_a_listing(crawl: CrawlView, entry: ListingView)
    ensures
        ({
            let after = visit(crawl, entry);
            &&& after.out == crawl.out + entry.files.filter(
                |p: PathView|
                    p.extension_text() matches Some(e) && (crawl.extensions.len() == 0 || exists|
                        j: int,
                    |
                        0 <= j < crawl.extensions.len() && crawl.extensions[j] == e),
            )
            &&& after.pending == crawl.pending + entry.subdirs.reverse()
            &&& after.extensions == crawl.extensions
            &&& after.awaited == crawl.awaited
            &&& after.visited == crawl.visited
            &&& after.rescanned == crawl.rescanned
        }),
{
    law_files_are_wanted_by_extension(entry.files, crawl.extensions);
}

/// A crawl takes up the last of the directories that it has still to go into. A directory without a
/// modification time is left out. One with a cached listing of its modification time is gone
/// through at once, and counts as visited. Any other is awaited, and counts as listed anew too.
pub proof fn law_crawls_use_fresh_listings(
    cache: Map<PathView, ListingView>,
    crawl: CrawlView,
    mtime: Option<i128>,
)
    requires
        crawl.awaited is None,
        crawl.pending.len() > 0,
    ensures
        ({
            let dir = crawl.pending.last();
            let rest = CrawlView { pending: crawl.pending.drop_last(), ..crawl };
            let next = stat_step(cache, crawl, mtime);
            &&& mtime is None ==> next == rest
            &&& mtime matches Some(m) ==> if cache.contains_key(dir) && cache[dir].mtime == m {
                has_gone_through(
                    CrawlView { visited: crawl.visited + 1, ..rest },
                    next,
                    cache[dir],
                )
            } else {
                next == CrawlView {
                    visited: crawl.visited + 1,
                    rescanned: crawl.rescanned + 1,
                    awaited: Some((dir, m)),
                    ..rest
                }
            }
        }),
{
    let dir = crawl.pending.last();
    let rest = CrawlView { pending: crawl.pending.drop_last(), ..crawl };
    let next = stat_step(cache, crawl, mtime);
    if cache.contains_key(dir) && mtime == Some(cache[dir].mtime) {
        law_files_are_wanted_by_extension(cache[dir].files, crawl.extensions);
        assert(next.pending.take(rest.pending.len() as int) =~= rest.pending);
    }
}

/// A crawl that learns the entries of the directory that it awaits goes through its listing.
pub proof fn law_crawls_go_through_what_they_await(
    crawl: CrawlView,
    dir: PathView,
    m: i128,
    items: Option<Seq<ItemView>>,
)
    requires
        crawl.awaited == Some((dir, m)),
    ensures
        has_gone_through(crawl, scan_step(crawl, items), listing(dir, m, items)),
{
    let entry = listing(dir, m, items);
    law_files_are_wanted_by_extension(entry.files, crawl.extensions);
    assert(scan_step(crawl, items).pending.take(crawl.pending.len() as int) =~= crawl.pending);
}

} // verus!
