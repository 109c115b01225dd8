//! What values stand for: what they hold, field by field and element by element.

use vstd::prelude::*;

use crate::dir_cache::{item_views, Crawl, CrawlView, DirCacheEntry, DirItem, ItemView, ListingView};
use crate::extractors::{node_views, NodeView, StructuralNode};
use crate::mcp::{JsonRpcRequest, JsonRpcResponse};
use crate::path_table::{key_view, PathKey};
use crate::paths::{part_views, path_views, PathView, RepoPath};
use crate::ranking::{scored_views, Scored, ScoredView};
use crate::search_backend::{match_views, LineMatch, MatchView};
use crate::semantic_search::{optional_text, similarity_views};
use crate::vector_cache::{entry_views, VectorEntry, VectorEntryView};
use crate::watcher::{key_views, DrainEvent, DrainEventView};

verus! {

/// A path stands for whether it is anchored and for its components.
pub proof fn law_what_paths_stand_for(
    path: RepoPath,
    paths: Seq<RepoPath>,
    key: PathKey,
    keys: Seq<PathKey>,
    parts: Seq<Vec<u8>>,
)
    ensures
        path@ == (PathView {
            anchored: path.anchored,
            parts: path.parts@.map_values(|p: Vec<u8>| p@),
        }),
        paths.map_values(|p: RepoPath| p@) == path_views(paths),
        key_view(key) == (PathView {
            anchored: key.0,
            parts: key.1@.map_values(|p: Vec<u8>| p@),
        }),
        key_views(keys) == keys.map_values(|k: PathKey| key_view(k)),
        part_views(parts) == parts.map_values(|p: Vec<u8>| p@),
{
    assert(path@.parts =~= path.parts@.map_values(|p: Vec<u8>| p@));
    assert(key_view(key).parts =~= key.1@.map_values(|p: Vec<u8>| p@));
}

/// Matches and declarations stand for their line and text.
pub proof fn law_what_lines_stand_for(
    m: LineMatch,
    found: Seq<LineMatch>,
    n: StructuralNode,
    nodes: Seq<StructuralNode>,
)
    ensures
        m@ == (MatchView { line: m.line as nat, text: m.text@ }),
        match_views(found) == found.map_values(|m: LineMatch| m@),
        n@ == (NodeView { line: n.line as nat, declaration: n.declaration@ }),
        node_views(nodes) == nodes.map_values(|n: StructuralNode| n@),
{
}

/// What is known of directories stands for its parts, and so does a crawl.
pub proof fn law_what_directories_stand_for(
    item: DirItem,
    items: Seq<DirItem>,
    entry: DirCacheEntry,
    crawl: Crawl,
)
    ensures
        item@ == (ItemView { name: item.name@, is_dir: item.is_dir }),
        item_views(items) == items.map_values(|i: DirItem| i@),
        entry@ == (ListingView {
            mtime: entry.mtime,
            files: entry.files@.map_values(|p: RepoPath| p@),
            subdirs: entry.subdirs@.map_values(|p: RepoPath| p@),
        }),
        crawl@ == (CrawlView {
            out: crawl.out@.map_values(|p: RepoPath| p@),
            visited: crawl.stats.dirs_visited as int,
            rescanned: crawl.stats.dirs_rescanned as int,
            extensions: crawl.extensions@.map_values(|s: String| s@),
            pending: crawl.pending@.map_values(|p: RepoPath| p@),
            awaited: match crawl.awaited {
                Some(a) => Some((a.0@, a.1)),
                None => None,
            },
        }),
{
    assert(entry@.files =~= entry.files@.map_values(|p: RepoPath| p@));
    assert(entry@.subdirs =~= entry.subdirs@.map_values(|p: RepoPath| p@));
    assert(crawl@.out =~= crawl.out@.map_values(|p: RepoPath| p@));
    assert(crawl@.extensions =~= crawl.extensions@.map_values(|s: String| s@));
    assert(crawl@.pending =~= crawl.pending@.map_values(|p: RepoPath| p@));
}

/// Requests and responses stand for their parts.
pub proof fn law_what_messages_stand_for(request: JsonRpcRequest, response: JsonRpcResponse)
    ensures
        request@.jsonrpc == request.jsonrpc@,
        request@.method == request.method@,
        request@.params == request.params@,
        request.id matches Some(id) ==> request@.id == Some(id@),
        request.id is None ==> request@.id is None,
        response@.jsonrpc == response.jsonrpc@,
        response.result matches Some(result) ==> response@.result == Some(result@),
        response.result is None ==> response@.result is None,
        response.error matches Some(error) ==> response@.error == Some(error@),
        response.error is None ==> response@.error is None,
        response.id matches Some(id) ==> response@.id == Some(id@),
        response.id is None ==> response@.id is None,
{
}

/// Scored matches and the entries of the index stand for their parts.
pub proof fn law_what_matches_and_entries_stand_for(
    item: Scored,
    items: Seq<Scored>,
    e: VectorEntry,
    entries: Seq<VectorEntry>,
    similarities: Seq<Vec<u64>>,
    text: Option<String>,
)
    ensures
        item@ == (ScoredView {
            similarity: item.similarity,
            path: item.path@,
            start_line: item.start_line,
            end_line: item.end_line,
        }),
        scored_views(items) == items.map_values(|i: Scored| i@),
        e@ == (VectorEntryView { path: e.path@, mtime: e.mtime, len: e.len, chunks: e.chunks }),
        entry_views(entries) == entries.map_values(|e: VectorEntry| e@),
        similarity_views(similarities) == similarities.map_values(|s: Vec<u64>| s@),
        text matches Some(s) ==> optional_text(text) == Some(s@),
        text is None ==> optional_text(text) is None,
{
}

/// Events stand for what they report.
pub proof fn law_what_events_stand_for(event: DrainEvent)
    ensures
        event matches DrainEvent::Changed(path) ==> event@ == DrainEventView::Changed(path@),
        event is Nothing ==> event@ is Nothing,
        event is Closed ==> event@ is Closed,
{
}

} // verus!
