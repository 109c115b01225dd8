use std::sync::Arc;

use mcp_native_core::cache::FileCache;
use mcp_native_core::dir_cache::{CrawlNeed, DirCache, DirItem};
use mcp_native_core::extractors::StructuralNode;
use mcp_native_core::paths::RepoPath;
use mcp_native_core::watcher::{
    apply_batch, is_relevant, Drain, DrainEvent, DrainPhase, EventClass, RepoWatcher, DEBOUNCE_MS,
    MAX_DRAIN_PASSES,
};

fn path(text: &str) -> RepoPath {
    let mut parts = vec![b"/".to_vec()];
    parts.extend(text.split('/').filter(|p| !p.is_empty()).map(|p| p.as_bytes().to_vec()));
    RepoPath::new(true, parts)
}

fn names(batch: &[RepoPath]) -> Vec<String> {
    batch.iter().map(|p| String::from_utf8(p.parts.last().unwrap().clone()).unwrap()).collect()
}

/// Crawls a directory without subdirectories and says how many directories were listed.
fn crawl(cache: &mut DirCache, dir: &str, mtime: i128, files: &[&str]) -> (usize, usize) {
    let mut crawl = DirCache::crawl(&path(dir), Vec::new(), Vec::new());
    loop {
        match crawl.need() {
            CrawlNeed::Nothing => return (crawl.out.len(), crawl.stats.dirs_rescanned),
            CrawlNeed::Mtime(_) => cache.crawl_inner(&mut crawl, Some(mtime)),
            CrawlNeed::Items(_) => {
                let items = files.iter().map(|f| DirItem { name: f.as_bytes().to_vec(), is_dir: false }).collect();
                cache.rescan(&mut crawl, Some(items));
            }
        }
    }
}

/// Lets a change through the drain, to the caches.
fn report(change: RepoPath, dirs: &mut DirCache, files: &mut FileCache) {
    let mut drain = Drain::new();
    assert!(drain.step(DrainEvent::Changed(change)).is_none());
    let batch = drain.step(DrainEvent::Nothing).unwrap();
    apply_batch(&batch, dirs, files);
}

#[test]
fn watcher_evicts_file_cache_entry_on_modify() {
    let file_path = path("/r/a.rs");
    let (original_mtime, original_len) = (1_000, "fn a() {}".len() as u64);
    let mut dir_cache = DirCache::new();
    let mut file_cache = FileCache::new();

    let nodes = Arc::new(vec![StructuralNode { line: 1, declaration: "fn a() {}".to_string() }]);
    file_cache.store(&file_path, original_mtime, original_len, nodes);
    assert!(file_cache.get_if_fresh(&file_path, original_mtime, original_len).is_some());

    report(path("/r/a.rs"), &mut dir_cache, &mut file_cache);
    assert!(
        file_cache.get_if_fresh(&file_path, original_mtime, original_len).is_none(),
        "watcher should have evicted the changed file's cache entry"
    );
}

#[test]
fn watcher_evicts_dir_cache_entry_on_new_file() {
    let mut dir_cache = DirCache::new();
    let mut file_cache = FileCache::new();
    let (found, _) = crawl(&mut dir_cache, "/r", 10, &["a.rs"]);
    assert_eq!(found, 1);
    assert_eq!(crawl(&mut dir_cache, "/r", 10, &["a.rs"]).1, 0);

    report(path("/r/b.rs"), &mut dir_cache, &mut file_cache);
    let (_, rescanned) = crawl(&mut dir_cache, "/r", 10, &["a.rs", "b.rs"]);
    assert!(rescanned > 0, "watcher should have evicted the directory's cached listing");
}

#[test]
fn ensure_watching_skips_already_covered_subdirectory() {
    let mut watcher = RepoWatcher::new();
    for wanted in ["/r", "/r/sub"] {
        if let Some(root) = watcher.ensure_watching(Some(&path(wanted))) {
            watcher.started(&root, true);
        }
    }
    assert_eq!(
        watcher.roots().len(),
        1,
        "a subdirectory of an already-watched root should not get its own watch"
    );
}

#[test]
fn a_watch_that_could_not_be_started_is_tried_again() {
    let mut watcher = RepoWatcher::new();
    let root = watcher.ensure_watching(Some(&path("/r"))).unwrap();
    watcher.started(&root, false);
    assert!(watcher.ensure_watching(Some(&path("/r"))).is_some());
    watcher.started(&root, true);
    assert!(watcher.ensure_watching(Some(&path("/r"))).is_none());
    assert!(watcher.ensure_watching(Some(&path("/r/a/b"))).is_none());
    assert!(watcher.ensure_watching(Some(&path("/rr"))).is_some());
    assert!(watcher.ensure_watching(None).is_none());
}

#[test]
fn a_root_above_a_watched_one_gets_its_own_watch() {
    let mut watcher = RepoWatcher::new();
    watcher.started(&path("/r/sub"), true);
    let root = watcher.ensure_watching(Some(&path("/r"))).unwrap();
    assert_eq!(names(&[root.copy()]), vec!["r"]);
    watcher.started(&root, true);
    let mut roots = names(&watcher.roots());
    roots.sort();
    assert_eq!(roots, vec!["r", "sub"]);
    watcher.started(&root, true);
    assert_eq!(watcher.roots().len(), 2);
}

#[test]
fn events_that_change_something_are_relevant() {
    assert!(is_relevant(EventClass::Create));
    assert!(is_relevant(EventClass::Modify));
    assert!(is_relevant(EventClass::Remove));
    assert!(!is_relevant(EventClass::Any));
    assert!(!is_relevant(EventClass::Access));
    assert!(!is_relevant(EventClass::Other));
}

#[test]
fn a_burst_of_changes_is_one_batch() {
    let mut drain = Drain::new();
    assert!(drain.phase() == DrainPhase::Idle);
    for name in ["/a", "/b", "/a"] {
        assert!(drain.step(DrainEvent::Changed(path(name))).is_none());
        assert!(drain.phase() == DrainPhase::Gathering);
    }
    assert_eq!(names(&drain.step(DrainEvent::Nothing).unwrap()), vec!["a", "b", "a"]);
    assert!(drain.phase() == DrainPhase::Late);
    assert!(drain.step(DrainEvent::Nothing).is_none());
    assert!(drain.phase() == DrainPhase::Idle);
    assert_eq!(DEBOUNCE_MS, 300);
}

#[test]
fn late_changes_are_applied_in_passes_up_to_the_limit() {
    assert_eq!(MAX_DRAIN_PASSES, 20);
    let mut drain = Drain::new();
    drain.step(DrainEvent::Changed(path("/first")));
    assert!(drain.step(DrainEvent::Nothing).is_some());
    let mut passes = 0;
    while drain.phase() == DrainPhase::Late {
        assert!(drain.step(DrainEvent::Changed(path("/late"))).is_none());
        assert_eq!(names(&drain.step(DrainEvent::Nothing).unwrap()), vec!["late"]);
        passes += 1;
    }
    assert_eq!(passes, 20);
    assert!(drain.phase() == DrainPhase::Idle);
}

#[test]
fn what_was_gathered_is_applied_when_the_changes_end() {
    let mut drain = Drain::new();
    drain.step(DrainEvent::Changed(path("/a")));
    assert_eq!(names(&drain.step(DrainEvent::Closed).unwrap()), vec!["a"]);
    assert!(drain.step(DrainEvent::Closed).is_none());
    assert!(drain.phase() == DrainPhase::Idle);
    assert!(drain.step(DrainEvent::Closed).is_none());
    assert!(drain.phase() == DrainPhase::Closed);
}

#[test]
fn a_batch_leaves_what_did_not_change() {
    let mut dirs = DirCache::new();
    let mut files = FileCache::new();
    for dir in ["/r", "/r/a", "/s"] {
        crawl(&mut dirs, dir, 1, &["x"]);
    }
    for file in ["/r/a", "/r/b"] {
        files.store(&path(file), 1, 1, Arc::new(Vec::new()));
    }
    apply_batch(&vec![path("/r/a")], &mut dirs, &mut files);
    assert_eq!(crawl(&mut dirs, "/s", 1, &["x"]).1, 0);
    assert_eq!(crawl(&mut dirs, "/r", 1, &["x"]).1, 1);
    assert_eq!(crawl(&mut dirs, "/r/a", 1, &["x"]).1, 1);
    assert!(files.get_if_fresh(&path("/r/a"), 1, 1).is_none());
    assert!(files.get_if_fresh(&path("/r/b"), 1, 1).is_some());
}
