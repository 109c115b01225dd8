use std::collections::BTreeMap;
use std::sync::Arc;

use mcp_native_core::cache::{ContentCache, FileCache};
use mcp_native_core::content::{cached_content, read_content, Content};
use mcp_native_core::dir_cache::{Crawl, CrawlNeed, DirCache, DirItem};
use mcp_native_core::extractors::StructuralNode;
use mcp_native_core::path_table::PathTable;
use mcp_native_core::paths::RepoPath;

fn path(text: &str) -> RepoPath {
    let mut parts = vec![b"/".to_vec()];
    parts.extend(text.split('/').filter(|p| !p.is_empty()).map(|p| p.as_bytes().to_vec()));
    RepoPath::new(true, parts)
}

fn text_of(path: &RepoPath) -> String {
    let names: Vec<String> = path.parts[1..].iter().map(|p| String::from_utf8(p.clone()).unwrap()).collect();
    format!("/{}", names.join("/"))
}

/// Directories by path: their modification time and their entries.
struct Tree {
    dirs: BTreeMap<String, (i128, Vec<(&'static str, bool)>)>,
}

impl Tree {
    fn crawl(&self, cache: &mut DirCache, root: &str, extensions: &[&str]) -> Crawl {
        let extensions = extensions.iter().map(|e| e.to_string()).collect();
        let mut crawl = DirCache::crawl(&path(root), extensions, Vec::new());
        loop {
            match crawl.need() {
                CrawlNeed::Nothing => return crawl,
                CrawlNeed::Mtime(dir) => {
                    let mtime = self.dirs.get(&text_of(&dir)).map(|d| d.0);
                    cache.crawl_inner(&mut crawl, mtime);
                }
                CrawlNeed::Items(dir) => {
                    let items = self.dirs.get(&text_of(&dir)).map(|d| {
                        d.1.iter()
                            .map(|(name, is_dir)| DirItem { name: name.as_bytes().to_vec(), is_dir: *is_dir })
                            .collect()
                    });
                    cache.rescan(&mut crawl, items);
                }
            }
        }
    }
}

fn tree(dirs: &[(&str, i128, &[(&'static str, bool)])]) -> Tree {
    Tree { dirs: dirs.iter().map(|d| (d.0.to_string(), (d.1, d.2.to_vec()))).collect() }
}

#[test]
fn dir_cache_reuses_listing_when_untouched() {
    let dir = tree(&[("/r", 10, &[("a.rs", false)])]);
    let mut cache = DirCache::new();

    let first = dir.crawl(&mut cache, "/r", &["rs"]);
    assert_eq!(first.stats.dirs_rescanned, 1);
    assert_eq!(first.out.len(), 1);

    let second = dir.crawl(&mut cache, "/r", &["rs"]);
    assert_eq!(second.stats.dirs_rescanned, 0, "unchanged directory should not be rescanned");
    assert_eq!(second.out.len(), 1);
}

#[test]
fn dir_cache_rescans_after_new_file_added() {
    let mut cache = DirCache::new();
    tree(&[("/r", 10, &[("a.rs", false)])]).crawl(&mut cache, "/r", &["rs"]);

    let changed = tree(&[("/r", 11, &[("a.rs", false), ("b.rs", false)])]);
    let after = changed.crawl(&mut cache, "/r", &["rs"]);
    assert_eq!(after.stats.dirs_rescanned, 1, "directory mtime changed, should rescan");
    assert_eq!(after.out.len(), 2);
}

#[test]
fn dir_cache_skips_ignored_directories() {
    let dir = tree(&[
        ("/r", 10, &[(".git", true), ("a.rs", false)]),
        ("/r/.git", 10, &[("config", false)]),
    ]);
    let mut cache = DirCache::new();
    let crawl = dir.crawl(&mut cache, "/r", &[]);
    assert_eq!(crawl.stats.dirs_visited, 1, ".git should not be recursed into");
    assert_eq!(crawl.out.len(), 1);
}

#[test]
fn crawls_go_into_subdirectories_and_keep_the_wanted_extensions() {
    let dir = tree(&[
        ("/r", 1, &[("src", true), ("target", true), ("a.rs", false), ("b.py", false), ("Makefile", false)]),
        ("/r/src", 2, &[("c.rs", false), ("deep", true), ("node_modules", true)]),
        ("/r/src/deep", 3, &[("d.rs", false), ("bin", true)]),
        ("/r/target", 4, &[("e.rs", false)]),
    ]);
    let mut cache = DirCache::new();
    let crawl = dir.crawl(&mut cache, "/r", &["rs"]);
    let mut found: Vec<String> = crawl.out.iter().map(text_of).collect();
    found.sort();
    assert_eq!(found, vec!["/r/a.rs", "/r/src/c.rs", "/r/src/deep/d.rs"]);
    assert_eq!((crawl.stats.dirs_visited, crawl.stats.dirs_rescanned), (3, 3));

    let all = dir.crawl(&mut cache, "/r", &[]);
    assert_eq!(all.out.len(), 4, "a file without an extension is left out");
    assert_eq!((all.stats.dirs_visited, all.stats.dirs_rescanned), (3, 0));
}

#[test]
fn only_the_changed_directory_is_listed_again() {
    let mut cache = DirCache::new();
    tree(&[("/r", 1, &[("s", true)]), ("/r/s", 2, &[("a.rs", false)])]).crawl(&mut cache, "/r", &[]);
    let crawl = tree(&[("/r", 1, &[("s", true)]), ("/r/s", 3, &[("b.rs", false)])]).crawl(&mut cache, "/r", &[]);
    assert_eq!((crawl.stats.dirs_visited, crawl.stats.dirs_rescanned), (2, 1));
    assert_eq!(crawl.out.iter().map(text_of).collect::<Vec<_>>(), vec!["/r/s/b.rs"]);
}

#[test]
fn a_missing_root_gives_nothing() {
    let mut cache = DirCache::new();
    let crawl = tree(&[]).crawl(&mut cache, "/gone", &[]);
    assert!(crawl.out.is_empty());
    assert_eq!((crawl.stats.dirs_visited, crawl.stats.dirs_rescanned), (0, 0));
}

#[test]
fn an_invalidated_listing_is_made_anew() {
    let dir = tree(&[("/r", 10, &[("a.rs", false)])]);
    let mut cache = DirCache::new();
    dir.crawl(&mut cache, "/r", &[]);
    cache.invalidate(&path("/r"));
    assert_eq!(dir.crawl(&mut cache, "/r", &[]).stats.dirs_rescanned, 1);
}

#[test]
fn file_cache_serves_fresh_entry_and_rejects_stale() {
    let file_path = path("/r/a.rs");
    let (mtime, len) = (1_000, "fn a() {}".len() as u64);

    let mut cache = FileCache::new();
    assert!(cache.get_if_fresh(&file_path, mtime, len).is_none());

    let nodes = Arc::new(vec![StructuralNode { line: 1, declaration: "fn a() {}".to_string() }]);
    cache.store(&file_path, mtime, len, nodes.clone());

    let hit = cache.get_if_fresh(&file_path, mtime, len);
    assert!(hit.is_some());
    assert_eq!(hit.unwrap().len(), 1);

    let stale = cache.get_if_fresh(&file_path, 2_000, "fn a() {}\nfn b() {}".len() as u64);
    assert!(stale.is_none(), "changed file should invalidate cache");
    assert!(cache.get_if_fresh(&file_path, mtime, len + 1).is_none());
    assert!(cache.get_if_fresh(&file_path, mtime + 1, len).is_none());
    assert!(cache.get_if_fresh(&path("/r/b.rs"), mtime, len).is_none());
}

#[test]
fn content_cache_serves_fresh_entry_and_rejects_stale() {
    let file_path = path("/r/a.rs");
    let (mtime, len) = (1_000, "fn a() {}".len() as u64);

    let mut cache = ContentCache::new();
    assert!(cache.get_if_fresh(&file_path, mtime, len).is_none());

    cache.store(&file_path, mtime, len, Arc::new("fn a() {}".to_string()));

    let hit = cache.get_if_fresh(&file_path, mtime, len);
    assert!(hit.is_some());
    assert_eq!(hit.unwrap().as_str(), "fn a() {}");

    let stale = cache.get_if_fresh(&file_path, 2_000, "fn a() {}\nfn b() {}".len() as u64);
    assert!(stale.is_none(), "changed file should invalidate cache");
}

#[test]
fn content_cache_invalidate_removes_entry_regardless_of_freshness_check() {
    let file_path = path("/r/a.rs");
    let mut cache = ContentCache::new();
    cache.store(&file_path, 1, 9, Arc::new("fn a() {}".to_string()));
    assert!(cache.get_if_fresh(&file_path, 1, 9).is_some());

    cache.invalidate(&file_path);
    assert!(cache.get_if_fresh(&file_path, 1, 9).is_none());
}

#[test]
fn a_later_value_takes_the_place_of_the_one_before() {
    let file_path = path("/r/a.rs");
    let mut cache = ContentCache::new();
    cache.store(&file_path, 1, 1, Arc::new("a".to_string()));
    cache.store(&file_path, 2, 1, Arc::new("b".to_string()));
    assert!(cache.get_if_fresh(&file_path, 1, 1).is_none());
    assert_eq!(cache.get_if_fresh(&file_path, 2, 1).unwrap().as_str(), "b");
}

#[test]
fn forgetting_one_file_leaves_the_others() {
    let mut cache = FileCache::new();
    for name in ["/a", "/b", "/c"] {
        cache.store(&path(name), 1, 1, Arc::new(Vec::new()));
    }
    cache.invalidate(&path("/a"));
    cache.invalidate(&path("/nowhere"));
    assert!(cache.get_if_fresh(&path("/a"), 1, 1).is_none());
    assert!(cache.get_if_fresh(&path("/b"), 1, 1).is_some());
    assert!(cache.get_if_fresh(&path("/c"), 1, 1).is_some());
}

#[test]
fn read_text_is_cached_and_served_while_fresh() {
    let mut cache = ContentCache::new();
    let file = path("/r/a.rs");
    assert!(cached_content(&cache, &file, Some((1, 2))).is_none());
    match read_content(&mut cache, &file, Some((1, 2)), Some(b"hi".to_vec())) {
        Content::Read(text) => assert_eq!(text.as_str(), "hi"),
        _ => panic!("the bytes are text"),
    }
    match cached_content(&cache, &file, Some((1, 2))) {
        Some(Content::Cached(text)) => assert_eq!(text.as_str(), "hi"),
        _ => panic!("the text was recorded"),
    }
    assert!(cached_content(&cache, &file, Some((3, 2))).is_none());
    assert!(cached_content(&cache, &file, None).is_none());
}

#[test]
fn nothing_is_cached_without_a_stamp_or_a_text() {
    let mut cache = ContentCache::new();
    let file = path("/r/a.rs");
    assert!(matches!(read_content(&mut cache, &file, None, Some(b"hi".to_vec())), Content::Read(_)));
    assert!(matches!(read_content(&mut cache, &file, Some((1, 1)), Some(vec![0xff])), Content::Missing));
    assert!(matches!(read_content(&mut cache, &file, Some((1, 1)), None), Content::Missing));
    assert!(cached_content(&cache, &file, Some((1, 1))).is_none());
}

#[test]
fn tables_find_what_was_inserted_and_lose_what_was_removed() {
    let mut table: PathTable<u32> = PathTable::new();
    assert!(table.get(&path("/a")).is_none());
    table.insert(&path("/a"), 1);
    table.insert(&path("/a/b"), 2);
    table.insert(&path("/c"), 3);
    table.insert(&path("/a"), 4);
    assert_eq!(table.get(&path("/a")), Some(&4));
    table.remove(&path("/a"));
    assert_eq!(table.get(&path("/a")), None);
    assert_eq!(table.get(&path("/a/b")), Some(&2));
    assert_eq!(table.get(&path("/c")), Some(&3));
    assert!(table.get(&RepoPath::new(false, vec![b"c".to_vec()])).is_none());
}
