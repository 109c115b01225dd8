//! The tool that finds the code closest in meaning to a query.

use std::sync::Arc;
use vstd::prelude::*;

use crate::cache::{stored, ContentCache, Stamped};
use crate::chunks::{
    chunk_lines, chunk_views, chunks_from, law_snippet_of_a_chunk_is_its_text, snippet, snippet_of,
    CHUNK_LINES,
};
use crate::content::{
    cached, cached_content, optional_bytes, read_content, text_read, Content, Stamp,
};
use crate::json::{json_views, text_or_null, Json, JsonView};
use crate::mcp::McpTool;
use crate::paths::{PathView, RepoPath};
use crate::quantizer::{is_finite, is_finite_number, QuantizedVector};
use crate::ranking::{at_most_first, ranked, scored_views, top_k, Scored, ScoredView};
use crate::schema::{
    property, property_view, schema, schema_view, strings_property, strings_property_view,
};
use crate::text::{lines_of, views};
use crate::vector_cache::{
    law_stored_vectors_are_found, serves, EmbeddedChunk, VectorCache, VectorCacheView,
    VectorEntryView,
};

verus! {

/// How many matches are given where a search does not say.
pub const DEFAULT_TOP_K: usize = 10;

/// The tool that finds the code closest in meaning to a query.
pub struct SemanticSearchTool;

impl McpTool for SemanticSearchTool {
    open spec fn called(&self) -> Seq<char> {
        "semantic_search"@
    }

    open spec fn described(&self) -> Seq<char> {
        "Finds code conceptually related to a natural-language query using local sentence embeddings, even when exact keywords don't match. Complements fast_search's exact/regex matching; slower per-call (embeds every indexed file once) but far better at 'find the code that handles X' when you don't know the exact identifiers."@
    }

    open spec fn schema(&self) -> JsonView {
        schema_view(
            JsonView::empty().with(
                "root_dir"@,
                property_view("string"@, "The target codebase absolute directory path"@),
            ).with(
                "query"@,
                property_view(
                    "string"@,
                    "Natural-language description of the code you're looking for"@,
                ),
            ).with(
                "top_k"@,
                property_view("integer"@, "Maximum number of results to return (default 10)"@),
            ).with(
                "extensions"@,
                strings_property_view("Optional filters, e.g. ['rs', 'cs', 'py']"@),
            ),
            seq!["root_dir"@, "query"@],
        )
    }

    fn name(&self) -> (r: &'static str) {
        "semantic_search"
    }

    fn description(&self) -> (r: &'static str) {
        "Finds code conceptually related to a natural-language query using local sentence embeddings, even when exact keywords don't match. Complements fast_search's exact/regex matching; slower per-call (embeds every indexed file once) but far better at 'find the code that handles X' when you don't know the exact identifiers."
    }

    fn input_schema(&self) -> (r: Json) {
        let properties = Json::empty().with(
            "root_dir",
            property("string", "The target codebase absolute directory path"),
        ).with(
            "query",
            property("string", "Natural-language description of the code you're looking for"),
        ).with(
            "top_k",
            property("integer", "Maximum number of results to return (default 10)"),
        ).with("extensions", strings_property("Optional filters, e.g. ['rs', 'cs', 'py']"));
        let required: Vec<String> = vec!["root_dir".to_string(), "query".to_string()];
        assert(views(required@) =~= seq!["root_dir"@, "query"@]);
        schema(properties, &required)
    }
}

/// What a search is to do.
pub struct SemanticPlan {
    pub root_dir: String,
    pub query: String,
    pub top_k: usize,
    pub extensions: Vec<String>,
}

/// Why a search with these arguments is refused, if it is.
pub open spec fn semantic_refusal(params: JsonView) -> Option<Seq<char>> {
    if params.text_field("root_dir"@) is None {
        Some("Missing root_dir"@)
    } else if params.text_field("query"@) is None {
        Some("Missing query"@)
    } else {
        None
    }
}

/// How many matches a search asks for.
pub open spec fn wanted_top_k(params: JsonView) -> usize {
    match params.u64_field("top_k"@) {
        Some(n) => n as usize,
        None => DEFAULT_TOP_K,
    }
}

/// The vectors of the windows that have one, in their order.
pub open spec fn embedded(
    windows: Seq<(usize, usize, String)>,
    vectors: Seq<Option<QuantizedVector>>,
) -> Seq<EmbeddedChunk>
    decreases windows.len(),
{
    if windows.len() == 0 || windows.len() != vectors.len() {
        Seq::empty()
    } else {
        let before = embedded(windows.drop_last(), vectors.drop_last());
        match vectors.last() {
            Some(vector) => before.push(
                EmbeddedChunk {
                    start_line: windows.last().0,
                    end_line: windows.last().1,
                    vector,
                },
            ),
            None => before,
        }
    }
}

/// The vectors of a file, and whether they were found in the index.
pub struct IndexedFile {
    pub path: RepoPath,
    pub chunks: Arc<Vec<EmbeddedChunk>>,
    pub reused: bool,
}

/// What a file needs next on its way into the index.
pub enum FileStep {
    /// Nothing: the file is left out.
    Dropped,
    /// Nothing: its vectors were in the index.
    Done(IndexedFile),
    /// Its bytes.
    Read,
    /// The vectors of these windows.
    Embed(Vec<(usize, usize, String)>),
}

/// Whether the windows are those of a text.
pub open spec fn are_windows_of(
    windows: Seq<(usize, usize, String)>,
    text: Seq<char>,
) -> bool {
    chunk_views(windows) == chunks_from(lines_of(text), CHUNK_LINES as int, 0)
}

/// Whether the index has fresh vectors of a file.
pub open spec fn is_indexed(
    entries: Seq<VectorEntryView>,
    path: PathView,
    mtime: i128,
    len: u64,
) -> bool {
    exists|i: int| 0 <= i < entries.len() && serves(#[trigger] entries[i], path, mtime, len)
}

/// Whether a cache holds a text for the file, under this modification time and length, and else
/// what it held before.
pub open spec fn is_recorded(
    before: Map<PathView, Stamped<String>>,
    after: Map<PathView, Stamped<String>>,
    path: PathView,
    mtime: i128,
    len: u64,
    text: Seq<char>,
) -> bool {
    &&& after.contains_key(path)
    &&& after[path].value@ == text
    &&& after == stored(before, path, mtime, len, after[path].value)
}

/// The entry that the vectors of a file have in the index.
pub open spec fn entry_of(
    path: PathView,
    mtime: i128,
    len: u64,
    file: IndexedFile,
) -> VectorEntryView {
    VectorEntryView { path, mtime, len, chunks: file.chunks }
}

/// Whether `file` has its vectors from the index, which has them as its most recent ones now.
pub open spec fn is_reuse(
    before: VectorCacheView,
    after: VectorCacheView,
    path: PathView,
    mtime: i128,
    len: u64,
    file: IndexedFile,
) -> bool {
    &&& file.path@ == path
    &&& file.reused
    &&& before.entries.contains(entry_of(path, mtime, len, file))
    &&& after == before.used(entry_of(path, mtime, len, file))
}

/// Whether the vectors of `file` are new, and have been put into the index.
pub open spec fn is_addition(
    before: VectorCacheView,
    after: VectorCacheView,
    path: PathView,
    mtime: i128,
    len: u64,
    file: IndexedFile,
) -> bool {
    &&& file.path@ == path
    &&& !file.reused
    &&& after == before.stored(entry_of(path, mtime, len, file))
}

/// How many vectors the files have that were found in the index, or those that were not.
pub open spec fn vectors_among(files: Seq<IndexedFile>, reused: bool) -> nat
    decreases files.len(),
{
    if files.len() == 0 {
        0
    } else {
        vectors_among(files.drop_last(), reused) + (if files.last().reused == reused {
            files.last().chunks@.len()
        } else {
            0nat
        })
    }
}

/// A count as a 64-bit counter shows it.
pub open spec fn counter(n: nat) -> u64 {
    (n % 0x1_0000_0000_0000_0000) as u64
}

/// A counter goes on from zero where a count no longer fits.
proof fn lemma_counter_goes_on(n: nat, m: nat)
    requires
        m <= u64::MAX,
    ensures
        counter(n + m) == (if counter(n) + m > u64::MAX {
            counter(n) + m - 0x1_0000_0000_0000_0000
        } else {
            counter(n) + m
        }),
{
}

/// The matches of a file, given how similar each of its vectors is to the query.
pub open spec fn scored(
    path: PathView,
    chunks: Seq<EmbeddedChunk>,
    similarities: Seq<u64>,
) -> Seq<ScoredView> {
    Seq::new(
        chunks.len(),
        |i: int|
            ScoredView {
                similarity: similarities[i],
                path,
                start_line: chunks[i].start_line,
                end_line: chunks[i].end_line,
            },
    )
}

/// The matches of all files, in the order of the files, given how similar each of their vectors is
/// to the query.
pub open spec fn all_matches(
    files: Seq<IndexedFile>,
    similarities: Seq<Seq<u64>>,
) -> Seq<ScoredView>
    decreases files.len(),
{
    if files.len() == 0 || files.len() != similarities.len() {
        Seq::empty()
    } else {
        all_matches(files.drop_last(), similarities.drop_last()) + scored(
            files.last().path@,
            files.last().chunks@,
            similarities.last(),
        )
    }
}

/// What a sequence of lists of similarities stands for.
pub open spec fn similarity_views(v: Seq<Vec<u64>>) -> Seq<Seq<u64>> {
    Seq::new(v.len(), |i: int| v[i]@)
}

/// How a similarity is written: as a number, if it is one that is finite.
pub open spec fn similarity_json(similarity: u64) -> JsonView {
    if is_finite(similarity) {
        JsonView::Float(similarity)
    } else {
        JsonView::Null
    }
}

/// How a match is written.
pub open spec fn match_json(
    file: Seq<char>,
    item: ScoredView,
    snippet: Option<Seq<char>>,
) -> JsonView {
    JsonView::empty().with("file"@, JsonView::Text(file)).with(
        "start_line"@,
        JsonView::PosInt(item.start_line as u64),
    ).with("end_line"@, JsonView::PosInt(item.end_line as u64)).with(
        "similarity"@,
        similarity_json(item.similarity),
    ).with("snippet"@, text_or_null(snippet))
}

/// The result of a search.
pub open spec fn semantic_result(
    query: Seq<char>,
    indexed: u64,
    reused: u64,
    results: Seq<JsonView>,
) -> JsonView {
    JsonView::empty().with("status"@, JsonView::Text("success"@)).with(
        "query"@,
        JsonView::Text(query),
    ).with("chunks_indexed"@, JsonView::PosInt(indexed)).with(
        "chunks_reused_from_cache"@,
        JsonView::PosInt(reused),
    ).with("results"@, JsonView::List(results))
}

/// A text of which there may be none.
pub open spec fn optional_text(s: Option<String>) -> Option<Seq<char>> {
    match s {
        Some(s) => Some(s@),
        None => None,
    }
}

impl SemanticSearchTool {
    /// The tool.
    pub fn new() -> (r: SemanticSearchTool)
        ensures
            r == SemanticSearchTool,
    {
        SemanticSearchTool
    }

    /// Makes a plan of the arguments of a call, or says why they are refused.
    pub fn plan(params: &Json) -> (r: Result<SemanticPlan, String>)
        ensures
            match r {
                Ok(plan) => semantic_refusal(params@) is None && params@.text_field("root_dir"@)
                    == Some(plan.root_dir@) && params@.text_field("query"@) == Some(plan.query@)
                    && plan.top_k == wanted_top_k(params@) && views(plan.extensions@)
                    == params@.texts_field("extensions"@),
                Err(e) => semantic_refusal(params@) == Some(e@),
            },
    {
        let root_dir = match params.text_field("root_dir") {
            Some(s) => s.clone(),
            None => {
                return Err("Missing root_dir".to_string());
            },
        };
        let query = match params.text_field("query") {
            Some(s) => s.clone(),
            None => {
                return Err("Missing query".to_string());
            },
        };
        let top_k: usize = match params.u64_field("top_k") {
            Some(n) => n as usize,
            None => DEFAULT_TOP_K,
        };
        let extensions = params.texts_field("extensions");
        Ok(SemanticPlan { root_dir, query, top_k, extensions })
    }

    /// Begins with a file, whose vectors or text may be at hand. A file whose modification time and
    /// length are not known is left out.
    pub fn begin_file(
        index: &mut VectorCache,
        contents: &ContentCache,
        path: &RepoPath,
        stamp: Stamp,
    ) -> (r: FileStep)
        requires
            old(index).wf(),
            contents.wf(),
        ensures
            final(index).wf(),
            match stamp {
                None => r is Dropped && final(index)@ == old(index)@,
                Some((mtime, len)) => match r {
                    FileStep::Dropped => false,
                    FileStep::Done(file) => is_reuse(
                        old(index)@,
                        final(index)@,
                        path@,
                        mtime,
                        len,
                        file,
                    ),
                    FileStep::Read => {
                        &&& final(index)@ == old(index)@
                        &&& !is_indexed(old(index)@.entries, path@, mtime, len)
                        &&& cached(contents@, path@, stamp) is None
                    },
                    FileStep::Embed(windows) => {
                        &&& final(index)@ == old(index)@
                        &&& !is_indexed(old(index)@.entries, path@, mtime, len)
                        &&& cached(contents@, path@, stamp) matches Some(text)
                        &&& are_windows_of(windows@, text@)
                    },
                },
            },
    {
        let (mtime, len) = match stamp {
            Some((mtime, len)) => (mtime, len),
            None => {
                return FileStep::Dropped;
            },
        };
        if let Some(chunks) = index.get_if_fresh(path, mtime, len) {
            return FileStep::Done(IndexedFile { path: path.copy(), chunks, reused: true });
        }
        match cached_content(contents, path, stamp) {
            Some(Content::Cached(text)) => FileStep::Embed(chunk_lines(text.as_str(), CHUNK_LINES)),
            _ => FileStep::Read,
        }
    }

    /// Takes up what was read from a file. Its text is recorded; a file that has no text is left
    /// out.
    pub fn read_file(
        contents: &mut ContentCache,
        path: &RepoPath,
        mtime: i128,
        len: u64,
        bytes: Option<Vec<u8>>,
    ) -> (r: FileStep)
        requires
            old(contents).wf(),
        ensures
            final(contents).wf(),
            match text_read(optional_bytes(bytes)) {
                Some(text) => {
                    &&& r matches FileStep::Embed(windows)
                    &&& are_windows_of(windows@, text)
                    &&& is_recorded(old(contents)@, final(contents)@, path@, mtime, len, text)
                },
                None => r is Dropped && final(contents)@ == old(contents)@,
            },
    {
        match read_content(contents, path, Some((mtime, len)), bytes) {
            Content::Read(text) => FileStep::Embed(chunk_lines(text.as_str(), CHUNK_LINES)),
            _ => FileStep::Dropped,
        }
    }

    /// Puts the vectors of a file's windows into the index. A window that has no vector is left
    /// out.
    pub fn index(
        index: &mut VectorCache,
        path: &RepoPath,
        mtime: i128,
        len: u64,
        windows: &Vec<(usize, usize, String)>,
        vectors: Vec<Option<QuantizedVector>>,
    ) -> (r: IndexedFile)
        requires
            old(index).wf(),
            windows@.len() == vectors@.len(),
        ensures
            final(index).wf(),
            is_addition(old(index)@, final(index)@, path@, mtime, len, r),
            r.chunks@ == embedded(windows@, vectors@),
    {
        let ghost all = vectors@;
        let mut chunks: Vec<EmbeddedChunk> = Vec::new();
        let mut i: usize = 0;
        let mut vectors = vectors;
        let n: usize = windows.len();
        while i < n
            invariant
                i <= n == windows@.len() == all.len(),
                vectors@.len() == n,
                forall|j: int| i <= j < n ==> #[trigger] vectors@[j] == all[j],
                chunks@ == embedded(windows@.take(i as int), all.take(i as int)),
            decreases n - i,
        {
            let vector = vectors[i].take();
            let ghost w = windows@.take(i + 1);
            let ghost v = all.take(i + 1);
            assert(w.drop_last() =~= windows@.take(i as int));
            assert(v.drop_last() =~= all.take(i as int));
            if let Some(vector) = vector {
                let window = &windows[i];
                chunks.push(EmbeddedChunk { start_line: window.0, end_line: window.1, vector });
            }
            i = i + 1;
        }
        assert(windows@.take(n as int) =~= windows@);
        assert(all.take(n as int) =~= all);
        let chunks = Arc::new(chunks);
        index.store(path, mtime, len, chunks.clone());
        IndexedFile { path: path.copy(), chunks, reused: false }
    }

    /// The matches of a file, given how similar each of its vectors is to the query.
    pub fn score(file: &IndexedFile, similarities: &Vec<u64>) -> (r: Vec<Scored>)
        requires
            similarities@.len() == file.chunks@.len(),
        ensures
            scored_views(r@) == scored(file.path@, file.chunks@, similarities@),
    {
        let n: usize = similarities.len();
        let ghost wanted = scored(file.path@, file.chunks@, similarities@);
        let mut out: Vec<Scored> = Vec::new();
        let mut i: usize = 0;
        while i < n
            invariant
                i <= n == similarities@.len() == file.chunks@.len(),
                wanted == scored(file.path@, file.chunks@, similarities@),
                scored_views(out@) == wanted.take(i as int),
            decreases n - i,
        {
            let chunk = &file.chunks[i];
            let item = Scored {
                similarity: similarities[i],
                path: file.path.copy(),
                start_line: chunk.start_line,
                end_line: chunk.end_line,
            };
            let ghost before = out@;
            out.push(item);
            assert(scored_views(out@) =~= scored_views(before).push(item@));
            i = i + 1;
            assert(scored_views(out@) =~= wanted.take(i as int));
        }
        assert(scored_views(out@) =~= wanted);
        out
    }

    /// The `k` best matches of all files, best first, given how similar each of their vectors is to
    /// the query.
    pub fn rank(files: &Vec<IndexedFile>, similarities: &Vec<Vec<u64>>, k: usize) -> (r: Vec<Scored>)
        requires
            similarities@.len() == files@.len(),
            forall|i: int|
                0 <= i < files@.len() ==> (#[trigger] similarities@[i])@.len()
                    == files@[i].chunks@.len(),
        ensures
            scored_views(r@) == at_most_first(
                ranked(all_matches(files@, similarity_views(similarities@))),
                k as int,
            ),
    {
        let n: usize = files.len();
        let ghost given = similarity_views(similarities@);
        let mut all: Vec<Scored> = Vec::new();
        let mut i: usize = 0;
        assert(scored_views(all@) =~= all_matches(files@.take(0), given.take(0)));
        while i < n
            invariant
                i <= n == files@.len() == similarities@.len(),
                given == similarity_views(similarities@),
                forall|j: int|
                    0 <= j < n ==> (#[trigger] similarities@[j])@.len() == files@[j].chunks@.len(),
                scored_views(all@) == all_matches(files@.take(i as int), given.take(i as int)),
            decreases n - i,
        {
            let ghost f = files@.take(i + 1);
            let ghost g = given.take(i + 1);
            assert(f.drop_last() =~= files@.take(i as int));
            assert(g.drop_last() =~= given.take(i as int));
            assert(g.last() == similarities@[i as int]@);
            let mut own = Self::score(&files[i], &similarities[i]);
            let ghost before = all@;
            let ghost added = own@;
            all.append(&mut own);
            assert(scored_views(all@) =~= scored_views(before) + scored_views(added));
            i = i + 1;
        }
        assert(files@.take(n as int) =~= files@);
        assert(given.take(n as int) =~= given);
        top_k(all, k)
    }

    /// The text of a match, if the file's cached text is fresh and reaches that far.
    pub fn snippet_for(
        cache: &ContentCache,
        path: &RepoPath,
        stamp: Stamp,
        start_line: usize,
        end_line: usize,
    ) -> (r: Option<String>)
        requires
            cache.wf(),
        ensures
            optional_text(r) == (match cached(cache@, path@, stamp) {
                Some(content) => snippet(lines_of(content@), start_line as int, end_line as int),
                None => None,
            }),
    {
        match cached_content(cache, path, stamp) {
            Some(Content::Cached(text)) => snippet_of(text.as_str(), start_line, end_line),
            _ => None,
        }
    }

    /// How a match is written.
    pub fn match_block(file: &str, item: &Scored, snippet: Option<String>) -> (r: Json)
        ensures
            r@ == match_json(file@, item@, optional_text(snippet)),
    {
        let similarity = if is_finite_number(item.similarity) {
            Json::Float(item.similarity)
        } else {
            Json::Null
        };
        Json::empty().with("file", Json::text(file)).with(
            "start_line",
            Json::PosInt(item.start_line as u64),
        ).with("end_line", Json::PosInt(item.end_line as u64)).with("similarity", similarity).with(
            "snippet",
            Json::text_or_null(snippet),
        )
    }

    /// The result of a search.
    pub fn result(query: &str, files: &Vec<IndexedFile>, results: Vec<Json>) -> (r: Json)
        ensures
            r@ == semantic_result(
                query@,
                counter(vectors_among(files@, false)),
                counter(vectors_among(files@, true)),
                json_views(results@),
            ),
    {
        let n: usize = files.len();
        let mut indexed: u64 = 0;
        let mut reused: u64 = 0;
        let mut i: usize = 0;
        while i < n
            invariant
                i <= n == files@.len(),
                indexed == counter(vectors_among(files@.take(i as int), false)),
                reused == counter(vectors_among(files@.take(i as int), true)),
            decreases n - i,
        {
            let ghost next = files@.take(i + 1);
            assert(next.drop_last() =~= files@.take(i as int));
            assert(next.last() == files@[i as int]);
            let file = &files[i];
            let count: u64 = file.chunks.len() as u64;
            proof {
                lemma_counter_goes_on(
                    vectors_among(files@.take(i as int), file.reused),
                    count as nat,
                );
            }
            if file.reused {
                reused = reused.wrapping_add(count);
            } else {
                indexed = indexed.wrapping_add(count);
            }
            i = i + 1;
        }
        assert(files@.take(n as int) =~= files@);
        Json::empty().with("status", Json::text("success")).with("query", Json::text(query)).with(
            "chunks_indexed",
            Json::PosInt(indexed),
        ).with("chunks_reused_from_cache", Json::PosInt(reused)).with(
            "results",
            Json::list(results),
        )
    }
}

/// A file whose vectors fit the index is found there, and is not embedded again while it stays
/// unchanged.
pub proof fn law_indexed_files_are_found(index: VectorCacheView, e: VectorEntryView)
    requires
        index.wf(),
        e.bytes() <= index.max_bytes,
    ensures
        is_indexed(index.stored(e).entries, e.path, e.mtime, e.len),
        forall|mtime: i128, len: u64|
            mtime != e.mtime || len != e.len ==> !#[trigger] is_indexed(
                index.stored(e).entries,
                e.path,
                mtime,
                len,
            ),
{
    law_stored_vectors_are_found(index, e);
    let entries = index.stored(e).entries;
    let i = choose|i: int| 0 <= i < entries.len() && entries[i] == e;
    assert(serves(entries[i], e.path, e.mtime, e.len));
}

/// The vector of a window, with the lines of the window.
pub open spec fn chunk_of(window: (usize, usize, String), vector: QuantizedVector) -> EmbeddedChunk {
    EmbeddedChunk { start_line: window.0, end_line: window.1, vector }
}

/// Whether the chunk is the vector of window `i`.
pub open spec fn comes_from(
    chunk: EmbeddedChunk,
    windows: Seq<(usize, usize, String)>,
    vectors: Seq<Option<QuantizedVector>>,
    i: int,
) -> bool {
    &&& 0 <= i < windows.len()
    &&& vectors[i] == Some(chunk.vector)
    &&& chunk == chunk_of(windows[i], chunk.vector)
}

/// Whether the chunk is the vector of a window.
pub open spec fn is_of_a_window(
    chunk: EmbeddedChunk,
    windows: Seq<(usize, usize, String)>,
    vectors: Seq<Option<QuantizedVector>>,
) -> bool {
    exists|i: int| comes_from(chunk, windows, vectors, i)
}

/// A window without a vector is all that is left out: every other window is in the index with its
/// vector, and nothing else is.
pub proof fn law_only_failed_windows_are_left_out(
    windows: Seq<(usize, usize, String)>,
    vectors: Seq<Option<QuantizedVector>>,
)
    requires
        windows.len() == vectors.len(),
    ensures
        forall|i: int|
            0 <= i < windows.len() ==> match #[trigger] vectors[i] {
                Some(vector) => embedded(windows, vectors).contains(chunk_of(windows[i], vector)),
                None => true,
            },
        forall|k: int|
            0 <= k < embedded(windows, vectors).len() ==> is_of_a_window(
                #[trigger] embedded(windows, vectors)[k],
                windows,
                vectors,
            ),
    decreases windows.len(),
{
    if windows.len() > 0 {
        let w = windows.drop_last();
        let v = vectors.drop_last();
        let last = windows.len() - 1;
        law_only_failed_windows_are_left_out(w, v);
        let before = embedded(w, v);
        let all = embedded(windows, vectors);
        assert forall|i: int| 0 <= i < windows.len() implies match #[trigger] vectors[i] {
            Some(vector) => all.contains(chunk_of(windows[i], vector)),
            None => true,
        } by {
            if let Some(vector) = vectors[i] {
                if i < last {
                    assert(v[i] == vectors[i]);
                    assert(before.contains(chunk_of(w[i], vector)));
                    let k = choose|k: int|
                        0 <= k < before.len() && before[k] == chunk_of(w[i], vector);
                    assert(all[k] == chunk_of(windows[i], vector));
                } else {
                    assert(all[all.len() - 1] == chunk_of(windows[i], vector));
                }
            }
        }
        assert forall|k: int| 0 <= k < all.len() implies is_of_a_window(
            #[trigger] all[k],
            windows,
            vectors,
        ) by {
            if k < before.len() {
                assert(all[k] == before[k]);
                assert(is_of_a_window(before[k], w, v));
                let i = choose|i: int| comes_from(before[k], w, v, i);
                assert(comes_from(all[k], windows, vectors, i));
            } else {
                assert(comes_from(all[k], windows, vectors, last));
            }
        }
    }
}

/// The lines that the index names for a vector are the text that it was made from, as long as the
/// file has the text that was split into windows.
pub proof fn law_snippets_are_what_was_embedded(
    content: Seq<char>,
    windows: Seq<(usize, usize, String)>,
    vectors: Seq<Option<QuantizedVector>>,
    k: int,
)
    requires
        are_windows_of(windows, content),
        windows.len() == vectors.len(),
        0 <= k < embedded(windows, vectors).len(),
    ensures
        ({
            let chunk = embedded(windows, vectors)[k];
            exists|i: int|
                #![trigger windows[i]]
                comes_from(chunk, windows, vectors, i) && snippet(
                    lines_of(content),
                    chunk.start_line as int,
                    chunk.end_line as int,
                ) == Some(windows[i].2@)
        }),
{
    law_only_failed_windows_are_left_out(windows, vectors);
    let chunk = embedded(windows, vectors)[k];
    assert(is_of_a_window(chunk, windows, vectors));
    let i = choose|i: int| comes_from(chunk, windows, vectors, i);
    assert(chunk_views(windows)[i] == (
        windows[i].0 as int,
        windows[i].1 as int,
        windows[i].2@,
    ));
    law_snippet_of_a_chunk_is_its_text(lines_of(content), CHUNK_LINES as int, i);
}

} // verus!
