//! What the index of vectors, a search in it and the watcher come to.

use vstd::prelude::*;

use crate::cache::Stamped;
use crate::chunks::{chunk_views, chunks_from};
use crate::dir_cache::ListingView;
use crate::embeddings::{DEFAULT_MODEL_ID, MAX_TOKENS};
use crate::extractors::StructuralNode;
use crate::json::JsonView;
use crate::paths::PathView;
use crate::quantizer::QuantizedVector;
use crate::ranking::ScoredView;
use crate::semantic_search::{
    all_matches, are_windows_of, counter, embedded, is_addition, is_indexed, is_recorded, is_reuse,
    match_json, scored, semantic_refusal, semantic_result, vectors_among, wanted_top_k, IndexedFile,
};
use crate::text::lines_of;
use crate::vector_cache::{
    budget, chunk_bytes, fit, law_least_recently_used_go_first, serves, total_bytes, without,
    EmbeddedChunk, VectorCacheView, VectorEntryView, DEFAULT_MAX_BYTES,
};
use crate::watcher::{
    changes, dirs_after, files_after, is_covered, touched_dirs, touches, DrainEventView, DrainView,
    DEBOUNCE_MS, MAX_DRAIN_PASSES,
};

verus! {

/// The vectors of a file take up what each of them takes: a byte for each coordinate and four for
/// the factor. The entries take up what each of them takes.
pub proof fn law_bytes_add_up(
    chunks: Seq<EmbeddedChunk>,
    chunk: EmbeddedChunk,
    entries: Seq<VectorEntryView>,
    e: VectorEntryView,
)
    ensures
        chunk_bytes(seq![]) == 0,
        chunk_bytes(chunks.push(chunk)) == chunk_bytes(chunks) + chunk.vector@.buckets.len() + 4,
        e.bytes() == chunk_bytes(e.chunks@),
        total_bytes(seq![]) == 0,
        total_bytes(entries.push(e)) == total_bytes(entries) + chunk_bytes(e.chunks@),
        DEFAULT_MAX_BYTES == 128 * 1024 * 1024,
{
    assert(chunks.push(chunk).drop_last() =~= chunks);
    assert(entries.push(e).drop_last() =~= entries);
}

proof fn lemma_without_is_filter(entries: Seq<VectorEntryView>, path: PathView)
    ensures
        without(entries, path) == entries.filter(|e: VectorEntryView| e.path != path),
    decreases entries.len(),
{
    reveal(Seq::filter);
    if entries.len() > 0 {
        lemma_without_is_filter(entries.drop_last(), path);
    }
}

/// An entry that is used goes behind all the others, which keep their order; the budget stays.
pub proof fn law_used_entries_become_the_most_recent(cache: VectorCacheView, e: VectorEntryView)
    ensures
        cache.used(e).max_bytes == cache.max_bytes,
        cache.used(e).entries == cache.entries.filter(
            |other: VectorEntryView| other.path != e.path,
        ).push(e),
{
    lemma_without_is_filter(cache.entries, e.path);
}

/// An entry that is stored takes the place of those of its file. If it is within the budget it goes
/// behind all the others, of which as many of the first give way as have to, and no more. If it is
/// over the budget it is not kept, and the others stay.
pub proof fn law_stored_entries_take_room(cache: VectorCacheView, e: VectorEntryView)
    ensures
        ({
            let others = cache.entries.filter(|other: VectorEntryView| other.path != e.path);
            let after = cache.stored(e);
            &&& after.max_bytes == cache.max_bytes
            &&& chunk_bytes(e.chunks@) > cache.max_bytes ==> after.entries == others
            &&& chunk_bytes(e.chunks@) <= cache.max_bytes ==> exists|gone: int|
                0 <= gone <= others.len() && after.entries == #[trigger] others.skip(gone).push(e)
                    && total_bytes(others.skip(gone)) + chunk_bytes(e.chunks@) <= cache.max_bytes
                    && (gone > 0 ==> total_bytes(others.skip(gone - 1)) + chunk_bytes(e.chunks@)
                    > cache.max_bytes)
        }),
{
    lemma_without_is_filter(cache.entries, e.path);
    let others = cache.entries.filter(|other: VectorEntryView| other.path != e.path);
    let room = cache.max_bytes - chunk_bytes(e.chunks@);
    if room >= 0 {
        law_least_recently_used_go_first(others, room);
        let gone = others.len() - fit(others, room).len();
        assert(cache.stored(e).entries == others.skip(gone).push(e));
    }
}

/// A file is in the index exactly if an entry of it was made under the modification time and the
/// length that the file has.
pub proof fn law_files_are_indexed_while_fresh(
    entries: Seq<VectorEntryView>,
    path: PathView,
    mtime: i128,
    len: u64,
)
    ensures
        is_indexed(entries, path, mtime, len) <==> exists|i: int|
            0 <= i < entries.len() && (#[trigger] entries[i]).path == path && entries[i].mtime
                == mtime && entries[i].len == len,
        forall|e: VectorEntryView| #[trigger]
            serves(e, path, mtime, len) <==> e.path == path && e.mtime == mtime && e.len == len,
{
    if is_indexed(entries, path, mtime, len) {
        let i = choose|i: int|
            0 <= i < entries.len() && serves(#[trigger] entries[i], path, mtime, len);
        assert(entries[i].path == path);
    }
    if exists|i: int|
        0 <= i < entries.len() && (#[trigger] entries[i]).path == path && entries[i].mtime == mtime
            && entries[i].len == len {
        let i = choose|i: int|
            0 <= i < entries.len() && (#[trigger] entries[i]).path == path && entries[i].mtime
                == mtime && entries[i].len == len;
        assert(serves(entries[i], path, mtime, len));
    }
}

/// Vectors are reused exactly if the index holds them for the file as it is; vectors that are added
/// are stored for the file as it is. A text is recorded under the file's modification time and
/// length.
pub proof fn law_files_go_into_the_index(
    before: VectorCacheView,
    after: VectorCacheView,
    texts: Map<PathView, Stamped<String>>,
    texts_after: Map<PathView, Stamped<String>>,
    path: PathView,
    mtime: i128,
    len: u64,
    text: Seq<char>,
    file: IndexedFile,
)
    ensures
        ({
            let e = VectorEntryView { path, mtime, len, chunks: file.chunks };
            &&& is_reuse(before, after, path, mtime, len, file) <==> file.path@ == path
                && file.reused && before.entries.contains(e) && after == before.used(e)
            &&& is_addition(before, after, path, mtime, len, file) <==> file.path@ == path
                && !file.reused && after == before.stored(e)
            &&& is_recorded(texts, texts_after, path, mtime, len, text)
                <==> texts_after.contains_key(path) && texts_after[path].mtime == mtime
                && texts_after[path].len == len && texts_after[path].value@ == text && texts_after
                == texts.insert(path, texts_after[path])
        }),
{
}

/// The windows of a text are those of up to forty of its lines.
pub proof fn law_texts_are_split_by_forty_lines(
    windows: Seq<(usize, usize, String)>,
    text: Seq<char>,
)
    ensures
        are_windows_of(windows, text) <==> windows.map_values(
            |w: (usize, usize, String)| (w.0 as int, w.1 as int, w.2@),
        ) == chunks_from(lines_of(text), 40, 0),
{
    assert(chunk_views(windows) =~= windows.map_values(
        |w: (usize, usize, String)| (w.0 as int, w.1 as int, w.2@),
    ));
}

/// A window with a vector is indexed behind those before it, with the lines of the window; a window
/// without one is not.
pub proof fn law_windows_are_indexed_in_order(
    windows: Seq<(usize, usize, String)>,
    vectors: Seq<Option<QuantizedVector>>,
    window: (usize, usize, String),
    vector: QuantizedVector,
)
    requires
        windows.len() == vectors.len(),
    ensures
        embedded(seq![], seq![]).len() == 0,
        embedded(windows.push(window), vectors.push(None)) == embedded(windows, vectors),
        embedded(windows.push(window), vectors.push(Some(vector))) == embedded(
            windows,
            vectors,
        ).push(EmbeddedChunk { start_line: window.0, end_line: window.1, vector }),
{
    assert(windows.push(window).drop_last() =~= windows);
    assert(vectors.push(None).drop_last() =~= vectors);
    assert(vectors.push(Some(vector)).drop_last() =~= vectors);
}

/// Every vector of a file gives one match, of its lines, with its own similarity to the query; the
/// matches of a file come behind those of the files before it.
pub proof fn law_every_vector_gives_a_match(
    files: Seq<IndexedFile>,
    similarities: Seq<Seq<u64>>,
    file: IndexedFile,
    own: Seq<u64>,
)
    requires
        files.len() == similarities.len(),
    ensures
        all_matches(seq![], seq![]).len() == 0,
        ({
            let before = all_matches(files, similarities);
            let all = all_matches(files.push(file), similarities.push(own));
            let chunks = file.chunks@;
            &&& all.len() == before.len() + chunks.len()
            &&& all.take(before.len() as int) == before
            &&& forall|i: int|
                0 <= i < chunks.len() ==> all[before.len() + i] == (ScoredView {
                    similarity: own[i],
                    path: file.path@,
                    start_line: (#[trigger] chunks[i]).start_line,
                    end_line: chunks[i].end_line,
                })
            &&& all.skip(before.len() as int) == scored(file.path@, chunks, own)
        }),
{
    let before = all_matches(files, similarities);
    let all = all_matches(files.push(file), similarities.push(own));
    assert(files.push(file).drop_last() =~= files);
    assert(similarities.push(own).drop_last() =~= similarities);
    assert(all =~= before + scored(file.path@, file.chunks@, own));
    assert(all.take(before.len() as int) =~= before);
    assert(all.skip(before.len() as int) =~= scored(file.path@, file.chunks@, own));
    assert forall|i: int| 0 <= i < file.chunks@.len() implies all[before.len() + i] == (
    ScoredView {
        similarity: own[i],
        path: file.path@,
        start_line: (#[trigger] file.chunks@[i]).start_line,
        end_line: file.chunks@[i].end_line,
    }) by {
        assert(all[before.len() + i] == scored(file.path@, file.chunks@, own)[i]);
    }
}

/// The vectors of the files are counted apart, those that were in the index and those that were
/// not; a counter shows a count as it is, as long as it fits in 64 bits.
pub proof fn law_vectors_are_counted(files: Seq<IndexedFile>, file: IndexedFile, n: nat)
    ensures
        vectors_among(seq![], true) == 0,
        vectors_among(seq![], false) == 0,
        file.reused ==> vectors_among(files.push(file), true) == vectors_among(files, true)
            + file.chunks@.len() && vectors_among(files.push(file), false) == vectors_among(
            files,
            false,
        ),
        !file.reused ==> vectors_among(files.push(file), false) == vectors_among(files, false)
            + file.chunks@.len() && vectors_among(files.push(file), true) == vectors_among(
            files,
            true,
        ),
        n <= u64::MAX ==> counter(n) == n,
        counter(n + 0x1_0000_0000_0000_0000) == counter(n),
{
    assert(files.push(file).drop_last() =~= files);
}

/// A search is refused for want of a root, then for want of a query, and for nothing else. It gives
/// as many matches as it asks for, or ten where it does not say.
pub proof fn law_semantic_searches_say_what_they_want(params: JsonView)
    ensures
        params.text_field("root_dir"@) is None ==> semantic_refusal(params) == Some(
            "Missing root_dir"@,
        ),
        params.text_field("root_dir"@) is Some && params.text_field("query"@) is None
            ==> semantic_refusal(params) == Some("Missing query"@),
        params.text_field("root_dir"@) is Some && params.text_field("query"@) is Some
            ==> semantic_refusal(params) is None,
        params.u64_field("top_k"@) matches Some(n) ==> wanted_top_k(params) == n as usize,
        params.u64_field("top_k"@) is None ==> wanted_top_k(params) == 10,
{
}

/// A match is written with its file, its lines, its similarity where that is a finite number, and
/// its text where there is one.
pub proof fn law_matches_are_written_whole(
    file: Seq<char>,
    item: ScoredView,
    snippet: Option<Seq<char>>,
)
    ensures
        match_json(file, item, snippet) == JsonView::Object(
            seq![
                ("file"@, JsonView::Text(file)),
                ("start_line"@, JsonView::PosInt(item.start_line as u64)),
                ("end_line"@, JsonView::PosInt(item.end_line as u64)),
                (
                    "similarity"@,
                    if (item.similarity / 0x10_0000_0000_0000) % 0x800 != 0x7ff {
                        JsonView::Float(item.similarity)
                    } else {
                        JsonView::Null
                    },
                ),
                (
                    "snippet"@,
                    match snippet {
                        Some(text) => JsonView::Text(text),
                        None => JsonView::Null,
                    },
                ),
            ],
        ),
{
    assert(match_json(file, item, snippet)->Object_0 =~= seq![
        ("file"@, JsonView::Text(file)),
        ("start_line"@, JsonView::PosInt(item.start_line as u64)),
        ("end_line"@, JsonView::PosInt(item.end_line as u64)),
        (
            "similarity"@,
            if (item.similarity / 0x10_0000_0000_0000) % 0x800 != 0x7ff {
                JsonView::Float(item.similarity)
            } else {
                JsonView::Null
            },
        ),
        (
            "snippet"@,
            match snippet {
                Some(text) => JsonView::Text(text),
                None => JsonView::Null,
            },
        ),
    ]);
}

/// The result of a search holds the query, the two counts and the matches.
pub proof fn law_semantic_results(
    query: Seq<char>,
    indexed: u64,
    reused: u64,
    results: Seq<JsonView>,
)
    ensures
        semantic_result(query, indexed, reused, results) == JsonView::Object(
            seq![
                ("status"@, JsonView::Text("success"@)),
                ("query"@, JsonView::Text(query)),
                ("chunks_indexed"@, JsonView::PosInt(indexed)),
                ("chunks_reused_from_cache"@, JsonView::PosInt(reused)),
                ("results"@, JsonView::List(results)),
            ],
        ),
{
    assert(semantic_result(query, indexed, reused, results)->Object_0 =~= seq![
        ("status"@, JsonView::Text("success"@)),
        ("query"@, JsonView::Text(query)),
        ("chunks_indexed"@, JsonView::PosInt(indexed)),
        ("chunks_reused_from_cache"@, JsonView::PosInt(reused)),
        ("results"@, JsonView::List(results)),
    ]);
}

/// The model that is used by default, and how much of a text it takes in.
pub proof fn law_the_default_model()
    ensures
        DEFAULT_MODEL_ID@ == "sentence-transformers/all-MiniLM-L6-v2"@,
        MAX_TOKENS == 256,
{
}

/// A path is covered exactly if it is a watched directory or below one.
pub proof fn law_paths_are_covered_by_a_root(roots: Set<PathView>, path: PathView)
    ensures
        is_covered(roots, path) <==> exists|root: PathView|
            roots.contains(root) && #[trigger] path.starts_with(root),
{
    if is_covered(roots, path) {
        let root = choose|root: PathView| #[trigger] roots.contains(root) && path.starts_with(root);
        assert(roots.contains(root) && path.starts_with(root));
    }
    if exists|root: PathView| roots.contains(root) && #[trigger] path.starts_with(root) {
        let root = choose|root: PathView| roots.contains(root) && #[trigger] path.starts_with(root);
        assert(roots.contains(root) && path.starts_with(root));
    }
}

/// A batch forgets exactly the listings of the changed paths and of the directories that these are
/// in, and exactly the nodes of the changed paths. What it leaves is as it was.
pub proof fn law_batches_forget_what_changed(
    dirs: Map<PathView, ListingView>,
    files: Map<PathView, Stamped<Vec<StructuralNode>>>,
    paths: Seq<PathView>,
    p: PathView,
)
    ensures
        dirs_after(dirs, paths).contains_key(p) <==> dirs.contains_key(p) && forall|i: int|
            0 <= i < paths.len() ==> #[trigger] paths[i] != p && paths[i].parent() != Some(p),
        dirs_after(dirs, paths).contains_key(p) ==> dirs_after(dirs, paths)[p] == dirs[p],
        files_after(files, paths).contains_key(p) <==> files.contains_key(p) && forall|i: int|
            0 <= i < paths.len() ==> #[trigger] paths[i] != p,
        files_after(files, paths).contains_key(p) ==> files_after(files, paths)[p] == files[p],
{
    if touched_dirs(paths).contains(p) {
        let i = choose|i: int| 0 <= i < paths.len() && touches(#[trigger] paths[i], p);
        assert(paths[i] == p || paths[i].parent() == Some(p));
    } else {
        assert forall|i: int| 0 <= i < paths.len() implies #[trigger] paths[i] != p
            && paths[i].parent() != Some(p) by {
            assert(!touches(paths[i], p));
        }
    }
    if paths.contains(p) {
        let i = choose|i: int| 0 <= i < paths.len() && paths[i] == p;
        assert(paths[i] == p);
    }
    assert forall|i: int| 0 <= i < paths.len() && #[trigger] paths[i] == p implies paths.contains(
        p,
    ) by {}
}

/// A change is always collected, behind those before it, and hands nothing out; an idle collector
/// begins to gather with it.
pub proof fn law_changes_are_collected(drain: DrainView, path: PathView)
    ensures
        ({
            let (after, batch) = drain.next(DrainEventView::Changed(path));
            &&& batch is None
            &&& drain.phase is Idle ==> after.phase is Gathering && after.batch == seq![path]
                && after.passes == 0
            &&& drain.phase is Gathering || drain.phase is Late ==> after.phase == drain.phase
                && after.batch == drain.batch.push(path) && after.passes == drain.passes
            &&& drain.phase is Closed ==> after == drain
        }),
{
}

/// When nothing has changed for a while, what was gathered is handed out whole, and what changed
/// meanwhile is taken up. What came late is handed out too, twenty times at most; then, and when
/// nothing came late, a change is waited for. An idle collector ends when no more changes will come.
pub proof fn law_batches_are_handed_out(drain: DrainView, event: DrainEventView)
    requires
        !(event is Changed),
    ensures
        ({
            let (after, batch) = drain.next(event);
            &&& drain.phase is Idle ==> batch is None && after.batch == drain.batch && after.passes
                == drain.passes && (if event is Closed {
                after.phase is Closed
            } else {
                after.phase is Idle
            })
            &&& drain.phase is Gathering ==> batch == Some(drain.batch) && after.phase is Late
                && after.batch.len() == 0 && after.passes == 0
            &&& drain.phase is Late && drain.batch.len() == 0 ==> batch is None
                && after.phase is Idle && after.batch.len() == 0 && after.passes == 0
            &&& drain.phase is Late && drain.batch.len() > 0 ==> batch == Some(drain.batch)
                && after.batch.len() == 0 && (if drain.passes < 19 {
                after.phase is Late && after.passes == drain.passes + 1
            } else {
                after.phase is Idle && after.passes == 0
            })
            &&& drain.phase is Closed ==> after == drain && batch is None
        }),
        DrainView::idle().phase is Idle,
        DrainView::idle().batch.len() == 0,
        DrainView::idle().passes == 0,
        DEBOUNCE_MS == 300,
        MAX_DRAIN_PASSES == 20,
{
}

/// The changes in a sequence of events are those that the events report, in their order.
pub proof fn law_changes_are_those_reported(events: Seq<DrainEventView>)
    ensures
        changes(events) == events.filter_map(
            |e: DrainEventView|
                match e {
                    DrainEventView::Changed(path) => Some(path),
                    _ => None,
                },
        ),
    decreases events.len(),
{
    reveal(Seq::filter_map);
    if events.len() > 0 {
        law_changes_are_those_reported(events.drop_last());
    }
}

/// The budget is the one that is set, whatever it is, or 128 MiB.
pub proof fn law_the_budget_is_the_one_that_is_set(setting: Option<usize>, r: usize)
    requires
        call_ensures(budget, (setting,), r),
    ensures
        setting matches Some(n) ==> r == n,
        setting is None ==> r == 128 * 1024 * 1024,
{
}

} // verus!
