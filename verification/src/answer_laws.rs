//! What requests and the calls of tools are answered with, call by call.

use vstd::prelude::*;
use vstd::utf8::*;

use crate::cache::{ContentCache, FileCache};
use crate::chunks::{chunks_from, snippet};
use crate::content::{Content, Stamp};
use crate::dir_cache::CrawlStats;
use crate::extractors::{node_views, NodeView};
use crate::fast_search::{file_block, search_result, FastSearchTool, FileSearch, SearchPlan};
use crate::index_laws::{law_files_are_indexed_while_fresh, law_texts_are_split_by_forty_lines};
use crate::json::{json_views, Json, JsonView};
use crate::mcp::{
    dispatch, failure, finish_call, handle_call_tool, handle_initialize, handle_list_tools,
    handle_unknown_method, optional, request_text, server_card, success, tool_called, tool_list,
    with_tool, Dispatch, JsonRpcRequest, JsonRpcResponse, McpServerState, McpTool,
};
use crate::parse_structure::{
    declarations, language, step_message, structure_result, ParseStructureTool, ReadStep,
};
use crate::paths::RepoPath;
use crate::protocol_laws::{
    law_requests_go_by_their_method, law_responses_carry_a_result_or_an_error,
};
use crate::quantizer::QuantizedVector;
use crate::ranking::{
    at_most_first, comes_before, law_the_greatest_similarities_are_kept, ranked, scored_views,
    Scored,
};
use crate::search_backend::CompiledSearch;
use crate::semantic_search::{
    all_matches, counter, embedded, match_json, semantic_result, similarity_views, vectors_among,
    FileStep, IndexedFile, SemanticPlan, SemanticSearchTool,
};
use crate::text::{
    is_space, lemma_trimmed_empty_iff_blank, lines_of, trimmed, utf8_error_text, views,
};
use crate::vector_cache::{VectorCache, VectorEntryView};

verus! {

/// A line of white space holds no request; of any other the request is what the white space is
/// around.
pub proof fn law_lines_hold_a_request(line: &str, r: Option<String>)
    requires
        call_ensures(request_text, (line,), r),
    ensures
        r is None <==> forall|i: int| 0 <= i < line@.len() ==> is_space(#[trigger] line@[i]),
        r matches Some(text) ==> text@ == trimmed(line@),
{
    lemma_trimmed_empty_iff_blank(line@);
}

/// A request to begin is answered with the server's card, and one for a method that is not known
/// with the error for that.
pub proof fn law_beginning_and_unknown_methods(id: Option<Json>, r: JsonRpcResponse)
    ensures
        call_ensures(handle_initialize, (id,), r) ==> r@ == success(server_card(), optional(id)),
        call_ensures(handle_unknown_method, (id,), r) ==> r@ == failure(
            (-32601) as i64,
            "Method Not Found"@,
            optional(id),
        ),
{
}

/// A call is answered with the text of its result, or with why it failed.
pub proof fn law_calls_are_answered(
    outcome: Result<String, String>,
    id: Option<Json>,
    r: JsonRpcResponse,
)
    requires
        call_ensures(finish_call, (outcome, id), r),
    ensures
        r@.jsonrpc == "2.0"@,
        r@.id == optional(id),
        outcome matches Ok(text) ==> r@.error is None && r@.result == Some(
            JsonView::Object(
                seq![
                    (
                        "content"@,
                        JsonView::List(
                            seq![
                                JsonView::Object(
                                    seq![
                                        ("type"@, JsonView::Text("text"@)),
                                        ("text"@, JsonView::Text(text@)),
                                    ],
                                ),
                            ],
                        ),
                    ),
                ],
            ),
        ),
        outcome matches Err(e) ==> r@.result is None && r@.error == Some(
            JsonView::Object(
                seq![
                    ("code"@, JsonView::NegInt((-32603) as i64)),
                    ("message"@, JsonView::Text(e@)),
                ],
            ),
        ),
{
    let text = match outcome {
        Ok(text) => text@,
        Err(e) => e@,
    };
    law_responses_carry_a_result_or_an_error(
        JsonView::Null,
        (-32603) as i64,
        text,
        text,
        optional(id),
    );
}

/// The tools of the server are listed; a call goes to the tool that it names, with its arguments as
/// they stand, and is answered with an error where there is no such tool.
pub proof fn law_tools_are_listed_and_called<T: McpTool>(
    state: &McpServerState<T>,
    params: &Json,
    id: Option<Json>,
    listed: JsonRpcResponse,
    r: Dispatch<T>,
)
    requires
        call_ensures(handle_list_tools::<T>, (state, id), listed),
        call_ensures(handle_call_tool::<T>, (state, params, id), r),
    ensures
        listed@ == success(tool_list(state@), optional(id)),
        ({
            let name = match params@.get("name"@) {
                Some(JsonView::Text(name)) => name,
                _ => ""@,
            };
            let arguments = match params@.get("arguments"@) {
                Some(arguments) => arguments,
                None => JsonView::Null,
            };
            match tool_called(state@, name) {
                Some(tool) => r matches Dispatch::Call(t, a, i) && *t == tool && a@ == arguments
                    && i == id,
                None => r matches Dispatch::Reply(x) && x@ == failure(
                    (-32601) as i64,
                    "Tool not found"@,
                    optional(id),
                ),
            }
        }),
{
}

/// A request goes by its id and its method.
pub proof fn law_requests_are_dispatched<T: McpTool>(
    state: &McpServerState<T>,
    request: JsonRpcRequest,
    r: Dispatch<T>,
)
    requires
        call_ensures(dispatch::<T>, (state, request), r),
    ensures
        request.id is None <==> r is Ignore,
        request.id is Some && request.method@ == "initialize"@ ==> (r matches Dispatch::Reply(x)
            && x@ == success(server_card(), optional(request.id))),
        request.id is Some && request.method@ == "tools/list"@ ==> (r matches Dispatch::Reply(x)
            && x@ == success(tool_list(state@), optional(request.id))),
        request.id is Some && request.method@ == "tools/call"@ ==> ({
            let name = match request.params@.get("name"@) {
                Some(JsonView::Text(name)) => name,
                _ => ""@,
            };
            let arguments = match request.params@.get("arguments"@) {
                Some(arguments) => arguments,
                None => JsonView::Null,
            };
            match tool_called(state@, name) {
                Some(tool) => r matches Dispatch::Call(t, a, i) && *t == tool && a@ == arguments
                    && i == request.id,
                None => r matches Dispatch::Reply(x) && x@ == failure(
                    (-32601) as i64,
                    "Tool not found"@,
                    optional(request.id),
                ),
            }
        }),
        request.id is Some && request.method@ != "initialize"@ && request.method@ != "tools/list"@
            && request.method@ != "tools/call"@ ==> (r matches Dispatch::Reply(x) && x@ == failure(
            (-32601) as i64,
            "Method Not Found"@,
            optional(request.id),
        )),
{
    law_requests_go_by_their_method(state@, request@);
}

/// A tool is added to the server in the place of its name, and is found by it.
pub proof fn law_tools_are_added_and_found<T: McpTool>(
    state: &mut McpServerState<T>,
    tool: T,
    name: &str,
    found: Option<&T>,
)
    ensures
        call_ensures(McpServerState::<T>::register_tool, (state, tool), ()) ==> final(state)@
            == with_tool(old(state)@, tool),
        call_ensures(McpServerState::<T>::get, (&*old(state), name), found) ==> match found {
            Some(t) => tool_called(old(state)@, name@) == Some(*t),
            None => tool_called(old(state)@, name@) is None,
        },
{
}

/// A search needs a root and a query that its backend does not refuse; it goes by the backend that
/// it names, or the one for regular expressions, and looks at the extensions that it names.
pub proof fn law_searches_are_planned(
    tool: &FastSearchTool,
    params: &Json,
    r: Result<SearchPlan, String>,
)
    requires
        call_ensures(FastSearchTool::plan, (tool, params), r),
    ensures
        ({
            let backend = match params@.text_field("backend"@) {
                Some(name) => name,
                None => "regex"@,
            };
            let query = params@.text_field("query"@);
            &&& params@.text_field("root_dir"@) is None ==> (r matches Err(e) && e@
                == "Missing root_dir"@)
            &&& params@.text_field("root_dir"@) is Some && query is None ==> (r matches Err(e)
                && e@ == "Missing query pattern"@)
            &&& params@.text_field("root_dir"@) is Some && query is Some && !tool@.contains_key(
                backend,
            ) ==> (r matches Err(e) && e@ == "Unknown search backend: "@ + backend)
            &&& params@.text_field("root_dir"@) is Some && query is Some && tool@.contains_key(
                backend,
            ) ==> match tool@[backend].refusal(query->0) {
                Some(reason) => r matches Err(e) && e@ == reason,
                None => r is Ok,
            }
            &&& r matches Ok(plan) ==> Some(plan.root_dir@) == params@.text_field("root_dir"@)
                && views(plan.extensions@) == params@.texts_field("extensions"@) && forall|
                content: Seq<char>,
            | #[trigger]
                plan.compiled.found(content) == tool@[backend].found_by(query->0, content)
        }),
{
}

/// Every text is searched, and what is written of its file are the lines found in it.
pub proof fn law_files_are_searched(
    compiled: &CompiledSearch,
    file: &str,
    content: &Content,
    r: FileSearch,
)
    requires
        call_ensures(FastSearchTool::search_file, (compiled, file, content), r),
    ensures
        r.cached <==> content is Cached,
        match content {
            Content::Cached(text) => optional(r.block) == file_block(
                file@,
                compiled.found(text@),
            ),
            Content::Read(text) => optional(r.block) == file_block(file@, compiled.found(text@)),
            Content::Missing => r.block is None,
        },
{
}

/// The result of a search is made of what it came to in each file.
pub proof fn law_searches_are_answered(
    stats: &CrawlStats,
    latency_ms: u64,
    files: &Vec<FileSearch>,
    r: Json,
)
    requires
        call_ensures(FastSearchTool::result, (stats, latency_ms, files), r),
    ensures
        r@ == search_result(*stats, latency_ms, files@),
{
}

/// A parse needs the path of a file.
pub proof fn law_parses_need_a_file(params: &Json, r: Result<String, String>)
    requires
        call_ensures(ParseStructureTool::target, (params,), r),
    ensures
        match params@.get("file_path"@) {
            Some(JsonView::Text(file)) => r matches Ok(x) && x@ == file,
            _ => r matches Err(e) && e@ == "Missing file_path"@,
        },
{
}

/// The message for a failed step is what the step is called, and the reason.
pub proof fn law_failed_steps_are_told(step: ReadStep, reason: &str, r: String)
    requires
        call_ensures(step_message, (step, reason), r),
    ensures
        step is Stat ==> r@ == "Failed to stat file: "@ + reason@,
        step is Mtime ==> r@ == "Failed to read mtime: "@ + reason@,
        step is Open ==> r@ == "Failed to open file: "@ + reason@,
        step is MemoryMap ==> r@ == "Mmap failed: "@ + reason@,
{
}

/// An unchanged file is answered from the cache, exactly if its declarations are recorded under the
/// modification time and the length that it has.
pub proof fn law_unchanged_files_are_answered_from_the_cache(
    cache: &FileCache,
    file: &str,
    path: &RepoPath,
    mtime: i128,
    len: u64,
    r: Option<Json>,
)
    requires
        call_ensures(ParseStructureTool::cached_result, (cache, file, path, mtime, len), r),
    ensures
        r is Some <==> cache@.contains_key(path@) && cache@[path@].mtime == mtime
            && cache@[path@].len == len,
        r matches Some(result) ==> result@ == structure_result(
            file@,
            language(path@),
            node_views(cache@[path@].value@),
            true,
        ),
{
}

/// A file that is valid UTF-8 is parsed, whatever its text, and its declarations are recorded; any
/// other is refused, and nothing is recorded.
pub proof fn law_every_valid_text_is_parsed(
    tool: &ParseStructureTool,
    cache: &mut FileCache,
    file: &str,
    path: &RepoPath,
    mtime: i128,
    len: u64,
    bytes: &Vec<u8>,
    r: Result<Json, String>,
)
    requires
        call_ensures(ParseStructureTool::parse, (tool, cache, file, path, mtime, len, bytes), r),
    ensures
        ({
            let ext = match path@.extension_text() {
                Some(ext) => ext,
                None => ""@,
            };
            let nodes: Seq<NodeView> = if tool@.contains_key(ext) {
                tool@[ext].nodes(ext, decode_utf8(bytes@))
            } else {
                seq![]
            };
            &&& valid_utf8(bytes@) ==> (r matches Ok(result) && result@ == structure_result(
                file@,
                ext,
                nodes,
                false,
            )) && final(cache)@.contains_key(path@) && final(cache)@[path@].mtime == mtime
                && final(cache)@[path@].len == len && node_views(final(cache)@[path@].value@)
                == nodes && final(cache)@ == old(cache)@.insert(path@, final(cache)@[path@])
            &&& !valid_utf8(bytes@) ==> (r matches Err(e) && e@ == "Invalid UTF-8 sequence: "@
                + utf8_error_text(bytes@)) && final(cache)@ == old(cache)@
        }),
{
    let ext = language(path@);
    assert(declarations(tool@, ext, decode_utf8(bytes@)) =~= if tool@.contains_key(ext) {
        tool@[ext].nodes(ext, decode_utf8(bytes@))
    } else {
        seq![]
    });
}

/// A search by meaning needs a root and a query; it gives ten matches unless it says how many.
pub proof fn law_semantic_searches_are_planned(params: &Json, r: Result<SemanticPlan, String>)
    requires
        call_ensures(SemanticSearchTool::plan, (params,), r),
    ensures
        params@.text_field("root_dir"@) is None ==> (r matches Err(e) && e@ == "Missing root_dir"@),
        params@.text_field("root_dir"@) is Some && params@.text_field("query"@) is None ==> (
        r matches Err(e) && e@ == "Missing query"@),
        params@.text_field("root_dir"@) is Some && params@.text_field("query"@) is Some ==> (
        r matches Ok(plan) && Some(plan.root_dir@) == params@.text_field("root_dir"@) && Some(
            plan.query@,
        ) == params@.text_field("query"@) && views(plan.extensions@) == params@.texts_field(
            "extensions"@,
        ) && plan.top_k == (match params@.u64_field("top_k"@) {
            Some(n) => n as usize,
            None => 10,
        })),
{
}

/// A file without a known modification time and length is left out. One whose vectors are in the
/// index, made for the file as it is, has them from there. Any other is split into windows if its
/// text is cached for the file as it is, and else read.
pub proof fn law_beginning_with_a_file(
    index: &mut VectorCache,
    contents: &ContentCache,
    path: &RepoPath,
    stamp: Stamp,
    r: FileStep,
)
    requires
        call_ensures(SemanticSearchTool::begin_file, (index, contents, path, stamp), r),
    ensures
        stamp is None ==> r is Dropped && final(index)@ == old(index)@,
        stamp matches Some((mtime, len)) ==> {
            let indexed = exists|i: int|
                0 <= i < old(index)@.entries.len() && (#[trigger] old(index)@.entries[i]).path
                    == path@ && old(index)@.entries[i].mtime == mtime
                    && old(index)@.entries[i].len == len;
            let cached = contents@.contains_key(path@) && contents@[path@].mtime == mtime
                && contents@[path@].len == len;
            &&& indexed ==> (r matches FileStep::Done(file) && file.reused && file.path@ == path@
                && old(index)@.entries.contains(
                VectorEntryView { path: path@, mtime, len, chunks: file.chunks },
            ) && final(index)@ == old(index)@.used(
                VectorEntryView { path: path@, mtime, len, chunks: file.chunks },
            ))
            &&& !indexed ==> final(index)@ == old(index)@
            &&& !indexed && cached ==> (r matches FileStep::Embed(windows) && windows@.map_values(
                |w: (usize, usize, String)| (w.0 as int, w.1 as int, w.2@),
            ) == chunks_from(lines_of(contents@[path@].value@), 40, 0))
            &&& !indexed && !cached ==> r is Read
        },
{
    if let Some((mtime, len)) = stamp {
        law_files_are_indexed_while_fresh(
            old(index)@.entries,
            path@,
            mtime,
            len,
        );
        if let FileStep::Embed(windows) = r {
            law_texts_are_split_by_forty_lines(windows@, contents@[path@].value@);
        }
        if let FileStep::Done(file) = r {
            let e = VectorEntryView { path: path@, mtime, len, chunks: file.chunks };
            let i = choose|i: int|
                0 <= i < old(index)@.entries.len() && old(index)@.entries[i] == e;
            assert(old(index)@.entries[i].path == path@);
        }
    }
}

/// Every file that is valid UTF-8 is split into windows, whatever its text, and the text is
/// recorded; any other is left out, and nothing is recorded.
pub proof fn law_reading_a_file_for_the_index(
    contents: &mut ContentCache,
    path: &RepoPath,
    mtime: i128,
    len: u64,
    bytes: Option<Vec<u8>>,
    r: FileStep,
)
    requires
        call_ensures(SemanticSearchTool::read_file, (contents, path, mtime, len, bytes), r),
    ensures
        bytes matches Some(b) ==> (valid_utf8(b@) ==> (r matches FileStep::Embed(windows)
            && windows@.map_values(|w: (usize, usize, String)| (w.0 as int, w.1 as int, w.2@))
            == chunks_from(lines_of(decode_utf8(b@)), 40, 0)) && final(contents)@.contains_key(
            path@,
        ) && final(contents)@[path@].value@ == decode_utf8(b@) && final(contents)@[path@].mtime
            == mtime && final(contents)@[path@].len == len && final(contents)@
            == old(contents)@.insert(path@, final(contents)@[path@])),
        bytes matches Some(b) ==> (!valid_utf8(b@) ==> r is Dropped && final(contents)@
            == old(contents)@),
        bytes is None ==> r is Dropped && final(contents)@ == old(contents)@,
{
    if let FileStep::Embed(windows) = r {
        law_texts_are_split_by_forty_lines(windows@, decode_utf8(bytes->0@));
    }
}

/// The vectors of a file's windows are stored for the file as it is.
pub proof fn law_indexing_a_file(
    index: &mut VectorCache,
    path: &RepoPath,
    mtime: i128,
    len: u64,
    windows: &Vec<(usize, usize, String)>,
    vectors: Vec<Option<QuantizedVector>>,
    r: IndexedFile,
)
    requires
        call_ensures(SemanticSearchTool::index, (index, path, mtime, len, windows, vectors), r),
    ensures
        r.path@ == path@,
        !r.reused,
        r.chunks@ == embedded(windows@, vectors@),
        final(index)@ == old(index)@.stored(
            VectorEntryView { path: path@, mtime, len, chunks: r.chunks },
        ),
{
}

/// The matches of a search are those of all vectors with the greatest similarities, the greatest
/// first; there are as many as asked for, or as there are vectors.
pub proof fn law_the_closest_matches_are_given(
    files: &Vec<IndexedFile>,
    similarities: &Vec<Vec<u64>>,
    k: usize,
    r: Vec<Scored>,
)
    requires
        call_ensures(SemanticSearchTool::rank, (files, similarities, k), r),
    ensures
        ({
            let all = all_matches(files@, similarities@.map_values(|s: Vec<u64>| s@));
            let left_out = ranked(all).skip(r@.len() as int);
            &&& r@.len() == (if k < all.len() {
                k as int
            } else {
                all.len() as int
            })
            &&& (scored_views(r@) + left_out).to_multiset() == all.to_multiset()
            &&& forall|i: int, j: int|
                0 <= i < j < r@.len() ==> !comes_before(
                    (#[trigger] r@[j]).similarity,
                    (#[trigger] r@[i]).similarity,
                )
            &&& forall|i: int, j: int|
                0 <= i < r@.len() && 0 <= j < left_out.len() ==> !comes_before(
                    (#[trigger] left_out[j]).similarity,
                    (#[trigger] r@[i]).similarity,
                )
        }),
{
    assert(similarity_views(similarities@) =~= similarities@.map_values(|s: Vec<u64>| s@));
    let all = all_matches(files@, similarity_views(similarities@));
    let kept = at_most_first(ranked(all), k as int);
    law_the_greatest_similarities_are_kept(all, k as int);
    assert(scored_views(r@) == kept);
    assert(r@.len() == kept.len());
    assert forall|i: int| 0 <= i < r@.len() implies (#[trigger] r@[i]).similarity
        == kept[i].similarity by {
        assert(scored_views(r@)[i] == r@[i]@);
    }
}

/// The text of a match is that of its lines, if the file's text is cached for the file as it is.
pub proof fn law_snippets_come_from_fresh_texts(
    cache: &ContentCache,
    path: &RepoPath,
    stamp: Stamp,
    start: usize,
    end: usize,
    r: Option<String>,
)
    requires
        call_ensures(SemanticSearchTool::snippet_for, (cache, path, stamp, start, end), r),
    ensures
        ({
            let fresh = stamp matches Some((mtime, len)) && cache@.contains_key(path@)
                && cache@[path@].mtime == mtime && cache@[path@].len == len;
            let lines = lines_of(cache@[path@].value@);
            &&& !fresh ==> r is None
            &&& fresh ==> match r {
                Some(text) => snippet(lines, start as int, end as int) == Some(text@),
                None => snippet(lines, start as int, end as int) is None,
            }
        }),
{
}

/// A match and the result of a search by meaning are written whole.
pub proof fn law_semantic_searches_are_answered(
    file: &str,
    item: &Scored,
    snippet: Option<String>,
    block: Json,
    query: &str,
    files: &Vec<IndexedFile>,
    results: Vec<Json>,
    r: Json,
)
    ensures
        call_ensures(SemanticSearchTool::match_block, (file, item, snippet), block) ==> block@
            == match_json(
            file@,
            item@,
            match snippet {
                Some(text) => Some(text@),
                None => None,
            },
        ),
        call_ensures(SemanticSearchTool::result, (query, files, results), r) ==> r@
            == semantic_result(
            query@,
            counter(vectors_among(files@, false)),
            counter(vectors_among(files@, true)),
            json_views(results@),
        ),
{
}

} // verus!
