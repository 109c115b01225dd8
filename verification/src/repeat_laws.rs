//! What a second search gives, over a repository that stands still.

use vstd::prelude::*;

use crate::cache::Stamped;
use crate::chunks::snippet;
use crate::content::{
    cached, is_lookup, is_pass, law_second_pass_is_cached, text_read, Content, FileNow, Stamp,
};
use crate::crawl_laws::{
    crawl_all, is_forest_of, is_ready_for, is_true_to, law_second_crawl_rescans_nothing, DirFacts,
    DirTree,
};
use crate::dir_cache::{CrawlStats, CrawlView, ListingView};
use crate::fast_search::{
    blocks_among, cached_among, is_searched, law_hits_and_misses_add_up, lemma_result_fields,
    search_result, FileSearch,
};
use crate::json::{law_get_after_with, JsonView};
use crate::mcp::optional;
use crate::paths::PathView;
use crate::quantizer::QuantizedView;
use crate::ranking::{at_most_first, ranked, ScoredView};
use crate::search_backend::CompiledSearch;
use crate::semantic_search::{
    all_matches, counter, entry_of, is_addition, is_indexed, is_reuse, match_json, scored,
    semantic_result, vectors_among, IndexedFile,
};
use crate::text::lines_of;
use crate::vector_cache::{
    chunk_bytes, law_index_keeps_to_its_budget, lemma_stored_adds_one, lemma_stored_is_recent,
    lemma_used, lemma_used_is_recent, recent_take, serves, VectorCacheView, VectorEntryView,
};

verus! {

/// A repository that stands still: its directories and its files, and how the paths of its files
/// are written.
pub struct StillRepo {
    pub dirs: spec_fn(PathView) -> DirFacts,
    pub forest: Seq<DirTree>,
    pub files: spec_fn(PathView) -> FileNow,
    pub names: spec_fn(PathView) -> Seq<char>,
}

/// Whether a crawl is about to begin: nothing is found or counted yet.
pub open spec fn is_beginning(repo: StillRepo, crawl: CrawlView) -> bool {
    &&& is_forest_of(repo.dirs, repo.forest)
    &&& is_ready_for(crawl, repo.forest)
    &&& crawl.out.len() == 0
    &&& crawl.visited == 0
    &&& crawl.rescanned == 0
}

/// Whether the statistics are those of a crawl.
pub open spec fn are_stats_of(stats: CrawlStats, crawl: CrawlView) -> bool {
    stats.dirs_visited == crawl.visited && stats.dirs_rescanned == crawl.rescanned
}

/// Whether `searched` is what a search comes to in the files at `paths`, which gave `contents`.
pub open spec fn is_search(
    repo: StillRepo,
    compiled: CompiledSearch,
    paths: Seq<PathView>,
    contents: Seq<Content>,
    searched: Seq<FileSearch>,
) -> bool {
    &&& contents.len() == paths.len()
    &&& searched.len() == paths.len()
    &&& forall|i: int|
        0 <= i < paths.len() ==> is_searched(
            compiled,
            (repo.names)(paths[i]),
            contents[i],
            #[trigger] searched[i],
        )
}

/// One run of a search for files: the cached listings that it starts from, what it looks at and
/// for, and what it comes to.
pub struct SearchRun {
    pub listings: Map<PathView, ListingView>,
    pub caches: Seq<Map<PathView, Stamped<String>>>,
    pub contents: Seq<Content>,
    pub compiled: CompiledSearch,
    pub searched: Seq<FileSearch>,
    pub stats: CrawlStats,
    pub latency_ms: u64,
}

impl SearchRun {
    /// The listings and the crawl at the end of the run's crawl.
    pub open spec fn crawled(
        self,
        repo: StillRepo,
        crawl: CrawlView,
    ) -> (Map<PathView, ListingView>, CrawlView) {
        crawl_all(repo.dirs, self.listings, crawl, repo.forest)
    }

    /// Whether the run is one through the repository.
    pub open spec fn is_of(self, repo: StillRepo, crawl: CrawlView) -> bool {
        let done = self.crawled(repo, crawl).1;
        &&& is_pass(repo.files, done.out, self.caches, self.contents)
        &&& is_search(repo, self.compiled, done.out, self.contents, self.searched)
        &&& are_stats_of(self.stats, done)
    }

    /// The result of the run.
    pub open spec fn result(self) -> JsonView {
        search_result(self.stats, self.latency_ms, self.searched)
    }
}

/// All files that are cached are counted as such.
proof fn lemma_all_cached(files: Seq<FileSearch>)
    requires
        forall|i: int| 0 <= i < files.len() ==> (#[trigger] files[i]).cached,
    ensures
        cached_among(files) == files.len(),
    decreases files.len(),
{
    if files.len() > 0 {
        let before = files.drop_last();
        assert forall|i: int| 0 <= i < before.len() implies (#[trigger] before[i]).cached by {
            assert(before[i] == files[i]);
        }
        lemma_all_cached(before);
        assert(files.last() == files[files.len() - 1]);
    }
}

/// The same blocks make up the same list.
proof fn lemma_same_blocks(a: Seq<FileSearch>, b: Seq<FileSearch>)
    requires
        a.len() == b.len(),
        forall|i: int|
            0 <= i < a.len() ==> optional((#[trigger] a[i]).block) == optional(
                (#[trigger] b[i]).block,
            ),
    ensures
        blocks_among(a) == blocks_among(b),
    decreases a.len(),
{
    if a.len() > 0 {
        let x = a.drop_last();
        let y = b.drop_last();
        assert forall|i: int| 0 <= i < x.len() implies optional((#[trigger] x[i]).block)
            == optional((#[trigger] y[i]).block) by {
            assert(x[i] == a[i] && y[i] == b[i]);
        }
        lemma_same_blocks(x, y);
        assert(a.last() == a[a.len() - 1] && b.last() == b[b.len() - 1]);
        assert(optional(a.last().block) == optional(b.last().block));
    }
}

/// A second search with the same root and extensions, in a repository that has not changed, with
/// files that can all be stamped and are all text, lists no directory anew and finds every file in
/// the cache, whatever it searches for. Where it searches for the same, it finds the same.
pub proof fn law_second_search_is_all_hits(
    repo: StillRepo,
    crawl: CrawlView,
    first: SearchRun,
    second: SearchRun,
)
    requires
        is_beginning(repo, crawl),
        is_true_to(first.listings, repo.dirs),
        first.is_of(repo, crawl),
        second.is_of(repo, crawl),
        second.listings == first.crawled(repo, crawl).0,
        second.caches.first() == first.caches.last(),
        first.searched.len() <= u64::MAX,
        forall|i: int|
            0 <= i < first.crawled(repo, crawl).1.out.len() ==> {
                let path = #[trigger] first.crawled(repo, crawl).1.out[i];
                (repo.files)(path).stamp is Some && text_read((repo.files)(path).bytes) is Some
            },
    ensures
        ({
            let n = first.searched.len();
            &&& second.searched.len() == n
            &&& second.result().u64_field("content_cache_hits"@) == Some(n as u64)
            &&& second.result().u64_field("content_cache_misses"@) == Some(0u64)
            &&& second.result().u64_field("directories_rescanned"@) == Some(0u64)
            &&& first.result().u64_field("content_cache_hits"@) matches Some(hits)
            &&& first.result().u64_field("content_cache_misses"@) matches Some(misses)
            &&& hits + misses == n
        }),
        (forall|text: Seq<char>| #[trigger]
            second.compiled.found(text) == first.compiled.found(text)) ==> second.result().get(
            "matches"@,
        ) == first.result().get("matches"@),
{
    law_second_crawl_rescans_nothing(repo.dirs, first.listings, crawl, crawl, repo.forest);
    let paths = first.crawled(repo, crawl).1.out;
    assert(second.crawled(repo, crawl).1.out == paths);
    law_second_pass_is_cached(
        repo.files,
        paths,
        first.caches,
        first.contents,
        second.caches,
        second.contents,
    );
    assert forall|i: int| 0 <= i < second.searched.len() implies (
    #[trigger] second.searched[i]).cached by {
        assert(second.contents[i] is Cached);
    }
    lemma_all_cached(second.searched);
    lemma_result_fields(first.stats, first.latency_ms, first.searched);
    lemma_result_fields(second.stats, second.latency_ms, second.searched);
    law_hits_and_misses_add_up(first.stats, first.latency_ms, first.searched);
    if forall|text: Seq<char>| #[trigger]
        second.compiled.found(text) == first.compiled.found(text) {
        assert forall|i: int| 0 <= i < paths.len() implies optional(
            (#[trigger] second.searched[i]).block,
        ) == optional((#[trigger] first.searched[i]).block) by {
            assert(second.contents[i].text() == first.contents[i].text());
            if let Some(text) = first.contents[i].text() {
                assert(second.compiled.found(text) == first.compiled.found(text));
            }
        }
        lemma_same_blocks(second.searched, first.searched);
    }
}

/// What a search by meaning keeps: the index of vectors, and the cached texts.
pub struct IndexState {
    pub index: VectorCacheView,
    pub contents: Map<PathView, Stamped<String>>,
}

/// Whether `outcome` is what a file comes to in a search by meaning. A file that cannot be stamped
/// is left out. One whose vectors are in the index has them from there. Of any other the text is
/// looked up, which gives `content`; if there is one, its vectors are put into the index, else the
/// file is left out.
pub open spec fn is_turn(
    before: IndexState,
    after: IndexState,
    path: PathView,
    now: FileNow,
    content: Content,
    outcome: Option<IndexedFile>,
) -> bool {
    match now.stamp {
        None => outcome is None && after == before,
        Some((mtime, len)) => if is_indexed(before.index.entries, path, mtime, len) {
            &&& outcome matches Some(file)
            &&& is_reuse(before.index, after.index, path, mtime, len, file)
            &&& after.contents == before.contents
        } else {
            &&& is_lookup(before.contents, after.contents, path, now, content)
            &&& match (content.text(), outcome) {
                (None, None) => after.index == before.index,
                (Some(_), Some(file)) => is_addition(
                    before.index,
                    after.index,
                    path,
                    mtime,
                    len,
                    file,
                ),
                _ => false,
            }
        },
    }
}

/// One run of a search by meaning: the cached listings that it starts from, what it keeps before
/// the first file and after each, the texts that it looks up, and what each file comes to.
pub struct SemanticRun {
    pub listings: Map<PathView, ListingView>,
    pub states: Seq<IndexState>,
    pub contents: Seq<Content>,
    pub outcomes: Seq<Option<IndexedFile>>,
}

/// Whether the files at `paths` come to the outcomes of a run, one after the other.
pub open spec fn is_run(
    files: spec_fn(PathView) -> FileNow,
    paths: Seq<PathView>,
    run: SemanticRun,
) -> bool {
    &&& run.states.len() == paths.len() + 1
    &&& run.contents.len() == paths.len()
    &&& run.outcomes.len() == paths.len()
    &&& forall|i: int|
        0 <= i < paths.len() ==> is_turn(
            run.states[i],
            run.states[i + 1],
            paths[i],
            files(paths[i]),
            run.contents[i],
            #[trigger] run.outcomes[i],
        )
}

/// How many bytes the vectors of `files` take.
pub open spec fn vector_bytes_of(files: Seq<IndexedFile>) -> nat
    decreases files.len(),
{
    if files.len() == 0 {
        0
    } else {
        vector_bytes_of(files.drop_last()) + chunk_bytes(files.last().chunks@)
    }
}

/// Whether the vectors of a run's own files fit into the index.
pub open spec fn has_room(run: SemanticRun) -> bool {
    let start = run.states.first().index;
    start.wf() && vector_bytes_of(kept(run.outcomes)) <= start.max_bytes
}

proof fn lemma_bytes_of_the_first(outcomes: Seq<Option<IndexedFile>>, j: int)
    requires
        0 <= j <= outcomes.len(),
    ensures
        vector_bytes_of(kept(outcomes.take(j))) <= vector_bytes_of(kept(outcomes)),
    decreases outcomes.len(),
{
    if j < outcomes.len() {
        let before = outcomes.drop_last();
        assert(before.take(j) =~= outcomes.take(j));
        lemma_bytes_of_the_first(before, j);
        if outcomes.last() is Some {
            assert(kept(outcomes).drop_last() =~= kept(before));
        }
    } else {
        assert(outcomes.take(j) =~= outcomes);
    }
}

/// Whether the files that had the first `j` turns of a run have their vectors among the entries of
/// the index behind the first `t`, which take no more than these files need.
pub open spec fn are_recent(
    files: spec_fn(PathView) -> FileNow,
    paths: Seq<PathView>,
    run: SemanticRun,
    j: int,
    t: int,
) -> bool {
    &&& recent_take(run.states[j].index, t, vector_bytes_of(kept(run.outcomes.take(j))))
    &&& forall|i: int|
        0 <= i < j ==> match (files(paths[i]).stamp, #[trigger] run.outcomes[i]) {
            (Some((mtime, len)), Some(file)) => run.states[j].index.entries.skip(t).contains(
                entry_of(paths[i], mtime, len, file),
            ),
            _ => true,
        }
}

/// Where the vectors of a run's own files fit, none of them has to make room for another.
proof fn lemma_own_files_are_recent(
    files: spec_fn(PathView) -> FileNow,
    paths: Seq<PathView>,
    run: SemanticRun,
    j: int,
) -> (t: int)
    requires
        is_run(files, paths, run),
        has_room(run),
        0 <= j <= paths.len(),
    ensures
        run.states[j].index.wf(),
        run.states[j].index.max_bytes == run.states[0].index.max_bytes,
        are_recent(files, paths, run, j, t),
    decreases j,
{
    if j == 0 {
        let entries = run.states[0].index.entries;
        assert(entries.skip(entries.len() as int) =~= Seq::<VectorEntryView>::empty());
        entries.len() as int
    } else {
        let k = j - 1;
        let t = lemma_own_files_are_recent(files, paths, run, k);
        let before = run.states[k];
        let after = run.states[j];
        let path = paths[k];
        let outcome = run.outcomes[k];
        assert(is_turn(before, after, path, files(path), run.contents[k], outcome));
        let so_far = run.outcomes.take(k);
        let next = run.outcomes.take(j);
        assert(next.drop_last() =~= so_far);
        assert(next.last() == outcome);
        lemma_bytes_of_the_first(run.outcomes, j);
        let bytes = vector_bytes_of(kept(so_far));
        match (files(path).stamp, outcome) {
            (Some((mtime, len)), Some(file)) => {
                let e = entry_of(path, mtime, len, file);
                assert(kept(next).drop_last() =~= kept(so_far));
                assert(kept(next).last() == file);
                law_index_keeps_to_its_budget(before.index, e);
                let fresh = is_indexed(before.index.entries, path, mtime, len);
                let u = if fresh {
                    lemma_used_is_recent(before.index, e, t, bytes)
                } else {
                    lemma_stored_is_recent(before.index, e, t, bytes)
                };
                assert forall|i: int| 0 <= i < j implies match (
                    files(paths[i]).stamp,
                    #[trigger] run.outcomes[i],
                ) {
                    (Some((m, l)), Some(f)) => after.index.entries.skip(u).contains(
                        entry_of(paths[i], m, l, f),
                    ),
                    _ => true,
                } by {
                    if let (Some((m, l)), Some(f)) = (files(paths[i]).stamp, run.outcomes[i]) {
                        let x = entry_of(paths[i], m, l, f);
                        if i < k {
                            assert(before.index.entries.skip(t).contains(x));
                            if !fresh && paths[i] == path {
                                lemma_in_the_tail(before.index.entries, t, x);
                                lemma_indexed_by_entry(before.index.entries, path, m, l, x);
                            }
                        }
                    }
                }
                u
            },
            _ => t,
        }
    }
}

/// What is behind a place in a sequence is in the sequence.
proof fn lemma_in_the_tail(entries: Seq<VectorEntryView>, t: int, x: VectorEntryView)
    requires
        0 <= t <= entries.len(),
        entries.skip(t).contains(x),
    ensures
        entries.contains(x),
{
    let k = choose|k: int| 0 <= k < entries.skip(t).len() && entries.skip(t)[k] == x;
    assert(entries[t + k] == x);
}

/// An index has fresh vectors of a file exactly if it has an entry of that time and length.
proof fn lemma_indexed_by_entry(
    entries: Seq<VectorEntryView>,
    path: PathView,
    mtime: i128,
    len: u64,
    x: VectorEntryView,
)
    requires
        entries.contains(x),
        serves(x, path, mtime, len),
    ensures
        is_indexed(entries, path, mtime, len),
{
    let i = choose|i: int| 0 <= i < entries.len() && entries[i] == x;
    assert(serves(entries[i], path, mtime, len));
}

/// An index that has all the entries that another has of a file has its fresh vectors too.
proof fn lemma_still_indexed(
    a: Seq<VectorEntryView>,
    b: Seq<VectorEntryView>,
    path: PathView,
    mtime: i128,
    len: u64,
)
    requires
        forall|x: VectorEntryView| x.path == path && #[trigger] a.contains(x) ==> b.contains(x),
        is_indexed(a, path, mtime, len),
    ensures
        is_indexed(b, path, mtime, len),
{
    let i = choose|i: int| 0 <= i < a.len() && serves(#[trigger] a[i], path, mtime, len);
    assert(a.contains(a[i]));
    lemma_indexed_by_entry(b, path, mtime, len, a[i]);
}

/// A turn makes up no entry of another file, and leaves its text.
proof fn lemma_turn_adds_nothing_to_the_others(
    before: IndexState,
    after: IndexState,
    path: PathView,
    now: FileNow,
    content: Content,
    outcome: Option<IndexedFile>,
    other: PathView,
)
    requires
        is_turn(before, after, path, now, content, outcome),
        before.index.wf(),
        other != path,
    ensures
        forall|x: VectorEntryView|
            x.path == other && #[trigger] after.index.entries.contains(x)
                ==> before.index.entries.contains(x),
        forall|stamp: Stamp| #[trigger]
            cached(after.contents, other, stamp) == cached(before.contents, other, stamp),
{
    if let Some((mtime, len)) = now.stamp {
        if let Some(file) = outcome {
            let e = entry_of(path, mtime, len, file);
            if is_indexed(before.index.entries, path, mtime, len) {
                lemma_used(before.index, e);
            } else {
                lemma_stored_adds_one(before.index, e);
            }
        }
    }
}

/// What is known of a file once it has had its turn: its vectors are in the index; or it cannot be
/// stamped; or it has neither vectors nor a text.
pub open spec fn is_settled(
    state: IndexState,
    path: PathView,
    now: FileNow,
    outcome: Option<IndexedFile>,
) -> bool {
    match (now.stamp, outcome) {
        (Some((mtime, len)), Some(file)) => state.index.entries.contains(
            entry_of(path, mtime, len, file),
        ) && file.path@ == path,
        (Some((mtime, len)), None) => {
            &&& !is_indexed(state.index.entries, path, mtime, len)
            &&& cached(state.contents, path, now.stamp) is None
            &&& text_read(now.bytes) is None
        },
        (None, None) => true,
        (None, Some(_)) => false,
    }
}

/// A file that was left out stays without vectors and without a text.
proof fn lemma_left_out_stays(
    files: spec_fn(PathView) -> FileNow,
    paths: Seq<PathView>,
    run: SemanticRun,
    path: PathView,
    i: int,
    j: int,
)
    requires
        is_run(files, paths, run),
        has_room(run),
        0 <= i <= j <= paths.len(),
        is_settled(run.states[i], path, files(path), None),
    ensures
        is_settled(run.states[j], path, files(path), None),
    decreases j - i,
{
    if i < j {
        let k = j - 1;
        lemma_left_out_stays(files, paths, run, path, i, k);
        lemma_own_files_are_recent(files, paths, run, k);
        let before = run.states[k];
        let after = run.states[j];
        let now = files(paths[k]);
        assert(is_turn(before, after, paths[k], now, run.contents[k], run.outcomes[k]));
        if let Some((mtime, len)) = files(path).stamp {
            if paths[k] != path {
                lemma_turn_adds_nothing_to_the_others(
                    before,
                    after,
                    paths[k],
                    now,
                    run.contents[k],
                    run.outcomes[k],
                    path,
                );
                if is_indexed(after.index.entries, path, mtime, len) {
                    lemma_still_indexed(
                        after.index.entries,
                        before.index.entries,
                        path,
                        mtime,
                        len,
                    );
                }
            }
        }
    }
}

/// At the end of a run whose own vectors fit, every file of it is settled.
proof fn lemma_run_settles(
    files: spec_fn(PathView) -> FileNow,
    paths: Seq<PathView>,
    run: SemanticRun,
    i: int,
)
    requires
        is_run(files, paths, run),
        has_room(run),
        0 <= i < paths.len(),
    ensures
        is_settled(run.states.last(), paths[i], files(paths[i]), run.outcomes[i]),
{
    let n = paths.len() as int;
    let outcome = run.outcomes[i];
    assert(is_turn(
        run.states[i],
        run.states[i + 1],
        paths[i],
        files(paths[i]),
        run.contents[i],
        outcome,
    ));
    let t = lemma_own_files_are_recent(files, paths, run, n);
    match (files(paths[i]).stamp, outcome) {
        (Some((mtime, len)), Some(file)) => {
            let x = entry_of(paths[i], mtime, len, file);
            lemma_in_the_tail(run.states[n].index.entries, t, x);
        },
        (_, None) => {
            lemma_left_out_stays(files, paths, run, paths[i], i + 1, n);
        },
        _ => {},
    }
}

/// Whether a file that has come to `first` comes to the same again, now from the index.
pub open spec fn is_repeated(first: Option<IndexedFile>, second: Option<IndexedFile>) -> bool {
    match (first, second) {
        (Some(a), Some(b)) => a.path@ == b.path@ && a.chunks == b.chunks && b.reused,
        (None, None) => true,
        _ => false,
    }
}

/// A run over files that are all settled adds nothing and forgets nothing.
proof fn lemma_settled_run(
    files: spec_fn(PathView) -> FileNow,
    paths: Seq<PathView>,
    outcomes: Seq<Option<IndexedFile>>,
    run: SemanticRun,
    j: int,
)
    requires
        is_run(files, paths, run),
        run.states.first().index.wf(),
        outcomes.len() == paths.len(),
        forall|i: int|
            0 <= i < paths.len() ==> is_settled(
                run.states.first(),
                paths[i],
                files(paths[i]),
                #[trigger] outcomes[i],
            ),
        0 <= j <= paths.len(),
    ensures
        run.states[j].index.wf(),
        run.states[j].contents == run.states[0].contents,
        forall|x: VectorEntryView| #[trigger]
            run.states[j].index.entries.contains(x) == run.states[0].index.entries.contains(x),
        forall|i: int| 0 <= i < j ==> is_repeated(#[trigger] outcomes[i], run.outcomes[i]),
    decreases j,
{
    if j > 0 {
        let k = j - 1;
        lemma_settled_run(files, paths, outcomes, run, k);
        let start = run.states[0];
        let before = run.states[k];
        let after = run.states[j];
        let path = paths[k];
        let now = files(path);
        assert(is_turn(before, after, path, now, run.contents[k], run.outcomes[k]));
        assert(is_settled(start, path, now, outcomes[k]));
        if let Some((mtime, len)) = now.stamp {
            match outcomes[k] {
                Some(file) => {
                    let x = entry_of(path, mtime, len, file);
                    assert(before.index.entries.contains(x));
                    lemma_indexed_by_entry(before.index.entries, path, mtime, len, x);
                    let again = run.outcomes[k]->0;
                    let y = entry_of(path, mtime, len, again);
                    lemma_used(before.index, y);
                    let entries = before.index.entries;
                    let a = choose|a: int| 0 <= a < entries.len() && entries[a] == x;
                    let b = choose|b: int| 0 <= b < entries.len() && entries[b] == y;
                    if a < b {
                        assert(entries[a].path != entries[b].path);
                    } else if b < a {
                        assert(entries[b].path != entries[a].path);
                    }
                    assert(x == y);
                },
                None => {
                    if is_indexed(before.index.entries, path, mtime, len) {
                        lemma_still_indexed(
                            before.index.entries,
                            start.index.entries,
                            path,
                            mtime,
                            len,
                        );
                    }
                },
            }
        }
    }
}

/// The files that were not left out.
pub open spec fn kept(outcomes: Seq<Option<IndexedFile>>) -> Seq<IndexedFile>
    decreases outcomes.len(),
{
    if outcomes.len() == 0 {
        Seq::empty()
    } else {
        match outcomes.last() {
            Some(file) => kept(outcomes.drop_last()).push(file),
            None => kept(outcomes.drop_last()),
        }
    }
}

/// How similar the vectors of each file are to the query, given how similar any vector is.
pub open spec fn similarities_of(
    files: Seq<IndexedFile>,
    similarity: spec_fn(QuantizedView) -> u64,
) -> Seq<Seq<u64>> {
    Seq::new(
        files.len(),
        |i: int|
            Seq::new(files[i].chunks@.len(), |k: int| similarity(files[i].chunks@[k].vector@)),
    )
}

/// The matches of all files, given how similar any vector is to the query.
pub open spec fn all_scored(
    files: Seq<IndexedFile>,
    similarity: spec_fn(QuantizedView) -> u64,
) -> Seq<ScoredView> {
    all_matches(files, similarities_of(files, similarity))
}

/// How a match is written, with the lines that it names as far as their text is cached.
pub open spec fn written(
    repo: StillRepo,
    contents: Map<PathView, Stamped<String>>,
    item: ScoredView,
) -> JsonView {
    match_json(
        (repo.names)(item.path),
        item,
        match cached(contents, item.path, (repo.files)(item.path).stamp) {
            Some(text) => snippet(
                lines_of(text@),
                item.start_line as int,
                item.end_line as int,
            ),
            None => None,
        },
    )
}

/// The `top_k` best matches of a run.
pub open spec fn best_matches(
    run: SemanticRun,
    similarity: spec_fn(QuantizedView) -> u64,
    top_k: int,
) -> Seq<ScoredView> {
    at_most_first(ranked(all_scored(kept(run.outcomes), similarity)), top_k)
}

impl SemanticRun {
    /// The listings and the crawl at the end of the run's crawl.
    pub open spec fn crawled(
        self,
        repo: StillRepo,
        crawl: CrawlView,
    ) -> (Map<PathView, ListingView>, CrawlView) {
        crawl_all(repo.dirs, self.listings, crawl, repo.forest)
    }

    /// Whether the run is one through the repository.
    pub open spec fn is_of(self, repo: StillRepo, crawl: CrawlView) -> bool {
        is_run(repo.files, self.crawled(repo, crawl).1.out, self)
    }

    /// The result of the run.
    pub open spec fn result(
        self,
        repo: StillRepo,
        query: Seq<char>,
        similarity: spec_fn(QuantizedView) -> u64,
        top_k: int,
    ) -> JsonView {
        let files = kept(self.outcomes);
        let best = best_matches(self, similarity, top_k);
        semantic_result(
            query,
            counter(vectors_among(files, false)),
            counter(vectors_among(files, true)),
            Seq::new(best.len(), |i: int| written(repo, self.states.last().contents, best[i])),
        )
    }
}

/// The matches of the last file come last.
proof fn lemma_scored_last(files: Seq<IndexedFile>, similarity: spec_fn(QuantizedView) -> u64)
    requires
        files.len() > 0,
    ensures
        all_scored(files, similarity) == all_scored(files.drop_last(), similarity) + scored(
            files.last().path@,
            files.last().chunks@,
            Seq::new(
                files.last().chunks@.len(),
                |k: int| similarity(files.last().chunks@[k].vector@),
            ),
        ),
{
    let all = similarities_of(files, similarity);
    assert(all.drop_last() =~= similarities_of(files.drop_last(), similarity));
}

/// Files that come to the same again have the same matches, and all their vectors are reused.
proof fn lemma_repeated_files(
    first: Seq<Option<IndexedFile>>,
    second: Seq<Option<IndexedFile>>,
    similarity: spec_fn(QuantizedView) -> u64,
)
    requires
        first.len() == second.len(),
        forall|i: int| 0 <= i < first.len() ==> is_repeated(#[trigger] first[i], second[i]),
    ensures
        all_scored(kept(second), similarity) == all_scored(kept(first), similarity),
        vectors_among(kept(second), false) == 0,
        vectors_among(kept(second), true) == vectors_among(kept(first), false) + vectors_among(
            kept(first),
            true,
        ),
    decreases first.len(),
{
    if first.len() > 0 {
        let a = first.drop_last();
        let b = second.drop_last();
        assert forall|i: int| 0 <= i < a.len() implies is_repeated(#[trigger] a[i], b[i]) by {
            assert(a[i] == first[i]);
        }
        lemma_repeated_files(a, b, similarity);
        let last = first.len() - 1;
        assert(is_repeated(first[last], second[last]));
        if let (Some(x), Some(y)) = (first[last], second[last]) {
            assert(kept(first).drop_last() =~= kept(a));
            assert(kept(second).drop_last() =~= kept(b));
            assert(kept(first).last() == x && kept(second).last() == y);
            lemma_scored_last(kept(first), similarity);
            lemma_scored_last(kept(second), similarity);
        }
    }
}

/// A second search by meaning with the same arguments, in a repository that has not changed, embeds
/// nothing: all the vectors of the first one are found in the index, as long as those of its own files
/// fit into the budget, and the matches are the same.
pub proof fn law_second_semantic_search_reuses_everything(
    repo: StillRepo,
    crawl: CrawlView,
    first: SemanticRun,
    second: SemanticRun,
    query: Seq<char>,
    similarity: spec_fn(QuantizedView) -> u64,
    top_k: int,
)
    requires
        is_beginning(repo, crawl),
        is_true_to(first.listings, repo.dirs),
        first.is_of(repo, crawl),
        second.is_of(repo, crawl),
        has_room(first),
        second.listings == first.crawled(repo, crawl).0,
        second.states.first() == first.states.last(),
        vectors_among(kept(first.outcomes), false) + vectors_among(kept(first.outcomes), true)
            <= u64::MAX,
    ensures
        ({
            let r1 = first.result(repo, query, similarity, top_k);
            let r2 = second.result(repo, query, similarity, top_k);
            &&& r2.u64_field("chunks_indexed"@) == Some(0u64)
            &&& r1.u64_field("chunks_indexed"@) matches Some(indexed)
            &&& r1.u64_field("chunks_reused_from_cache"@) matches Some(reused)
            &&& r2.u64_field("chunks_reused_from_cache"@) matches Some(total)
            &&& total == indexed + reused
            &&& r2.get("results"@) == r1.get("results"@)
        }),
        best_matches(second, similarity, top_k) == best_matches(first, similarity, top_k),
{
    law_second_crawl_rescans_nothing(repo.dirs, first.listings, crawl, crawl, repo.forest);
    let paths = first.crawled(repo, crawl).1.out;
    assert(second.crawled(repo, crawl).1.out == paths);
    let n = paths.len() as int;
    assert forall|i: int| 0 <= i < n implies is_settled(
        second.states.first(),
        paths[i],
        (repo.files)(paths[i]),
        #[trigger] first.outcomes[i],
    ) by {
        lemma_run_settles(repo.files, paths, first, i);
    }
    lemma_own_files_are_recent(repo.files, paths, first, n);
    lemma_settled_run(repo.files, paths, first.outcomes, second, n);
    lemma_repeated_files(first.outcomes, second.outcomes, similarity);
    lemma_semantic_fields(repo, first, query, similarity, top_k);
    lemma_semantic_fields(repo, second, query, similarity, top_k);
    assert(second.states.last().contents == first.states.last().contents);
}

/// The counts and the matches of a result.
proof fn lemma_semantic_fields(
    repo: StillRepo,
    run: SemanticRun,
    query: Seq<char>,
    similarity: spec_fn(QuantizedView) -> u64,
    top_k: int,
)
    ensures
        ({
            let r = run.result(repo, query, similarity, top_k);
            let files = kept(run.outcomes);
            let best = best_matches(run, similarity, top_k);
            &&& r.get("chunks_indexed"@) == Some(
                JsonView::PosInt(counter(vectors_among(files, false))),
            )
            &&& r.get("chunks_reused_from_cache"@) == Some(
                JsonView::PosInt(counter(vectors_among(files, true))),
            )
            &&& r.get("results"@) == Some(
                JsonView::List(
                    Seq::new(
                        best.len(),
                        |i: int| written(repo, run.states.last().contents, best[i]),
                    ),
                ),
            )
        }),
{
    reveal_strlit("status");
    reveal_strlit("query");
    reveal_strlit("chunks_indexed");
    reveal_strlit("chunks_reused_from_cache");
    reveal_strlit("results");
    assert("status"@.len() == 6 && "query"@.len() == 5 && "chunks_indexed"@.len() == 14);
    assert("chunks_reused_from_cache"@.len() == 24 && "results"@.len() == 7);
    let files = kept(run.outcomes);
    let best = best_matches(run, similarity, top_k);
    let list = JsonView::List(
        Seq::new(best.len(), |i: int| written(repo, run.states.last().contents, best[i])),
    );
    lemma_semantic_field(
        query,
        counter(vectors_among(files, false)),
        counter(vectors_among(files, true)),
        list->List_0,
        "chunks_indexed"@,
    );
    lemma_semantic_field(
        query,
        counter(vectors_among(files, false)),
        counter(vectors_among(files, true)),
        list->List_0,
        "chunks_reused_from_cache"@,
    );
    lemma_semantic_field(
        query,
        counter(vectors_among(files, false)),
        counter(vectors_among(files, true)),
        list->List_0,
        "results"@,
    );
}

/// What a result has under a key.
proof fn lemma_semantic_field(
    query: Seq<char>,
    indexed: u64,
    reused: u64,
    results: Seq<JsonView>,
    key: Seq<char>,
)
    ensures
        semantic_result(query, indexed, reused, results).get(key) == (if key == "status"@ {
            Some(JsonView::Text("success"@))
        } else if key == "query"@ {
            Some(JsonView::Text(query))
        } else if key == "chunks_indexed"@ {
            Some(JsonView::PosInt(indexed))
        } else if key == "chunks_reused_from_cache"@ {
            Some(JsonView::PosInt(reused))
        } else if key == "results"@ {
            Some(JsonView::List(results))
        } else {
            None
        }),
{
    let o0 = JsonView::empty();
    let v1 = JsonView::Text("success"@);
    let o1 = o0.with("status"@, v1);
    let v2 = JsonView::Text(query);
    let o2 = o1.with("query"@, v2);
    let v3 = JsonView::PosInt(indexed);
    let o3 = o2.with("chunks_indexed"@, v3);
    let v4 = JsonView::PosInt(reused);
    let o4 = o3.with("chunks_reused_from_cache"@, v4);
    let v5 = JsonView::List(results);
    law_get_after_with(o0, "status"@, v1, key);
    law_get_after_with(o1, "query"@, v2, key);
    law_get_after_with(o2, "chunks_indexed"@, v3, key);
    law_get_after_with(o3, "chunks_reused_from_cache"@, v4, key);
    law_get_after_with(o4, "results"@, v5, key);
    assert(o0.get(key) is None);
}

} // verus!
