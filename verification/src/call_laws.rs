//! What the functions give back and leave behind, call by call.

use std::sync::Arc;
use vstd::prelude::*;
use vstd::utf8::*;

use crate::cache::{ContentCache, FileCache, Stamped};
use crate::chunks::{
    chunk_lines, chunk_views, chunks_from, covers, is_window, law_chunks_are_windows,
    law_chunks_cover_the_text, snippet_of,
};
use crate::content::{cached_content, read_content, Content, Stamp};
use crate::dir_cache::{
    item_views, listing, Crawl, CrawlNeed, CrawlView, DirCache, DirItem, ListingView,
};
use crate::embeddings::{model_source, ModelSource};
use crate::extractors::{
    node_views, structural_nodes, ExtractorRegistry, NodeView, RegexExtractor, StructuralExtractor,
    StructuralNode,
};
use crate::file_laws::{
    has_gone_through, law_crawls_go_through_what_they_await, law_crawls_use_fresh_listings,
};
use crate::mcp::{McpServerState, McpTool};
use crate::paths::{path_views, PathView, RepoPath};
use crate::patterns::{
    is_csharp_declaration, is_structural_line, matched_by_pattern, matches_structural_line,
    pattern_error,
};
use crate::search_backend::{
    match_views, matching_lines, CompiledSearch, LineMatch, MatchView, RegexSearchBackend,
    SearchBackend, SearchBackendRegistry,
};
use crate::search_laws::{
    are_the_lines_in, law_declarations_are_the_lines_that_declare, law_flags_tell_the_lines,
    law_lines_declare_by_the_pattern_of_their_language, law_queries_find_the_lines_that_match,
};
use crate::text::{is_blank, joined, lines_of, trimmed, views};
use crate::watcher::RepoWatcher;

verus! {

/// Bytes that are valid UTF-8 are read as the text that they encode, whatever the text and however
/// long; it is recorded where the file's modification time and length are known. No bytes, and
/// other bytes, give no text and change nothing.
pub proof fn law_reading_gives_the_text(
    cache: &mut ContentCache,
    path: &RepoPath,
    stamp: Stamp,
    bytes: Option<Vec<u8>>,
    r: Content,
)
    requires
        call_ensures(read_content, (cache, path, stamp, bytes), r),
    ensures
        bytes matches Some(b) ==> (valid_utf8(b@) ==> (r matches Content::Read(text) && text@
            == decode_utf8(b@) && (stamp matches Some((mtime, len)) ==> final(cache)@
            == old(cache)@.insert(path@, Stamped { mtime, len, value: text })))),
        bytes matches Some(b) ==> (!valid_utf8(b@) ==> r is Missing),
        bytes is None ==> r is Missing,
        r is Missing || stamp is None ==> final(cache)@ == old(cache)@,
{
}

/// A text is taken from the cache exactly if it was recorded under the modification time and the
/// length that the file has.
pub proof fn law_cached_texts_are_fresh(
    cache: &ContentCache,
    path: &RepoPath,
    stamp: Stamp,
    r: Option<Content>,
)
    requires
        call_ensures(cached_content, (cache, path, stamp), r),
    ensures
        ({
            let fresh = stamp matches Some((mtime, len)) && cache@.contains_key(path@)
                && cache@[path@].mtime == mtime && cache@[path@].len == len;
            &&& fresh ==> r == Some(Content::Cached(cache@[path@].value))
            &&& !fresh ==> r is None
        }),
{
}

/// What is recorded in a cache of texts is recorded under the modification time and the length that
/// are given; what is forgotten is that of the one file.
pub proof fn law_texts_are_recorded_and_forgotten(
    cache: &mut ContentCache,
    path: &RepoPath,
    mtime: i128,
    len: u64,
    value: Arc<String>,
)
    ensures
        call_ensures(ContentCache::store, (cache, path, mtime, len, value), ()) ==> final(cache)@
            == old(cache)@.insert(path@, Stamped { mtime, len, value }),
        call_ensures(ContentCache::invalidate, (cache, path), ()) ==> final(cache)@
            == old(cache)@.remove(path@),
{
}

/// What is recorded in a cache of nodes is recorded under the modification time and the length that
/// are given; what is forgotten is that of the one file.
pub proof fn law_nodes_are_recorded_and_forgotten(
    cache: &mut FileCache,
    path: &RepoPath,
    mtime: i128,
    len: u64,
    value: Arc<Vec<StructuralNode>>,
)
    ensures
        call_ensures(FileCache::store, (cache, path, mtime, len, value), ()) ==> final(cache)@
            == old(cache)@.insert(path@, Stamped { mtime, len, value }),
        call_ensures(FileCache::invalidate, (cache, path), ()) ==> final(cache)@
            == old(cache)@.remove(path@),
{
}

/// A compiled query finds exactly the lines of a text that its regular expression matches.
pub proof fn law_searching_finds_the_lines_that_match(
    backend: &RegexSearchBackend,
    query: &str,
    compiled: CompiledSearch,
    content: &str,
    r: Vec<LineMatch>,
)
    requires
        call_ensures(RegexSearchBackend::compile, (backend, query), Ok(compiled)),
        call_ensures(CompiledSearch::find_matches, (&compiled, content), r),
    ensures
        pattern_error(query@, usize::BITS) is None,
        are_the_lines_in(
            r@.map_values(|m: LineMatch| MatchView { line: m.line as nat, text: m.text@ }),
            lines_of(content@),
            matched_by_pattern(query@),
        ),
{
    law_queries_find_the_lines_that_match(query@, content@);
    assert(match_views(r@) =~= r@.map_values(
        |m: LineMatch| MatchView { line: m.line as nat, text: m.text@ },
    ));
    assert(compiled.found(content@) == backend.found_by(query@, content@));
}

/// A query that does not compile is refused with the reason.
pub proof fn law_bad_queries_are_refused(backend: &RegexSearchBackend, query: &str, e: String)
    requires
        call_ensures(RegexSearchBackend::compile, (backend, query), Err(e)),
    ensures
        pattern_error(query@, usize::BITS) matches Some(reason) && e@
            == "Invalid Regex Compilation Error: "@ + reason,
{
}

/// The declarations of a file are exactly those of its lines that declare something and are neither
/// empty nor comments.
pub proof fn law_extracting_gives_the_lines_that_declare(
    extractor: &RegexExtractor,
    ext: &str,
    content: &str,
    r: Vec<StructuralNode>,
    k: int,
)
    requires
        call_ensures(RegexExtractor::extract, (extractor, ext, content), r),
        0 <= k < lines_of(content@).len(),
    ensures
        ({
            let line = lines_of(content@)[k];
            let text = trimmed(line);
            let nodes = r@.map_values(
                |n: StructuralNode|
                    NodeView { line: n.line as nat, declaration: n.declaration@ },
            );
            nodes.contains(NodeView { line: (k + 1) as nat, declaration: text })
                <==> is_structural_line(ext@, line) && text.len() > 0 && !(text.len() >= 2
                && text[0] == '/' && text[1] == '/') && text[0] != '#'
        }),
{
    law_declarations_are_the_lines_that_declare(ext@, content@);
    assert(node_views(r@) =~= r@.map_values(
        |n: StructuralNode| NodeView { line: n.line as nat, declaration: n.declaration@ },
    ));
}

/// Flags tell which lines are given back as matches, and which as declarations.
pub proof fn law_flagged_lines_are_given_back(
    content: &str,
    hits: &Vec<bool>,
    found: Vec<LineMatch>,
    nodes: Vec<StructuralNode>,
    k: int,
)
    requires
        call_ensures(matching_lines, (content, hits), found),
        call_ensures(structural_nodes, (content, hits), nodes),
        0 <= k < lines_of(content@).len(),
    ensures
        ({
            let text = trimmed(lines_of(content@)[k]);
            &&& match_views(found@).contains(MatchView { line: (k + 1) as nat, text }) <==> k
                < hits@.len() && hits@[k]
            &&& node_views(nodes@).contains(NodeView { line: (k + 1) as nat, declaration: text })
                <==> k < hits@.len() && hits@[k] && text.len() > 0 && !(text.len() >= 2 && text[0]
                == '/' && text[1] == '/') && text[0] != '#'
        }),
{
    law_flags_tell_the_lines(lines_of(content@), hits@, k);
}

/// A line is told for a declaration by the patterns of its language.
pub proof fn law_telling_a_declaration(ext: &str, line: &str, r: bool)
    requires
        call_ensures(matches_structural_line, (ext, line), r),
    ensures
        ext@ == "rs"@ ==> r == matched_by_pattern(
            r#"^\s*(pub(\([^)]*\))?\s+)?((default|const|async|unsafe|[a-z]+\s+"[^"]*")\s+)*((fn|struct|enum|trait)\s+[a-zA-Z0-9_<>]+|impl(\s*<|\s+[a-zA-Z0-9_<>&(\[!*]))"#@,
        ).contains(line@),
        ext@ == "py"@ ==> r == matched_by_pattern(
            r"^\s*(async\s+)?(def|class)\s+([a-zA-Z0-9_]+)"@,
        ).contains(line@),
        ext@ != "rs"@ && ext@ != "py"@ && ext@ != "cs"@ ==> !r,
{
    law_lines_declare_by_the_pattern_of_their_language(ext@, line@);
}

/// What the pattern of C# matches is a declaration, whatever else holds of the line.
pub proof fn law_telling_a_declaration_of_csharp(declares: bool, shaped: bool, line: &str, r: bool)
    requires
        call_ensures(is_csharp_declaration, (declares, shaped, line), r),
    ensures
        declares ==> r,
        !declares && !shaped ==> !r,
{
}

/// The windows of a text start at every `size` lines and hold that many lines, or those that are
/// left; they are given with their lines and text, unless all of it is white space. Every line that
/// is not white space is in one of them.
pub proof fn law_splitting_gives_the_windows(
    content: &str,
    size: usize,
    r: Vec<(usize, usize, String)>,
    i: int,
    k: int,
)
    requires
        size > 0,
        call_ensures(chunk_lines, (content, size), r),
        0 <= i < r@.len(),
        0 <= k < lines_of(content@).len(),
    ensures
        ({
            let lines = lines_of(content@);
            let (start, end, text) = r@[i];
            &&& 1 <= start <= end <= lines.len()
            &&& (start - 1) % (size as int) == 0
            &&& end == start - 1 + size || end == lines.len() && end < start - 1 + size
            &&& text@ == joined(lines.subrange(start - 1, end as int))
            &&& !is_blank(text@)
            &&& i + 1 < r@.len() ==> end < r@[i + 1].0
            &&& !is_blank(lines[k]) ==> exists|j: int|
                0 <= j < r@.len() && (#[trigger] r@[j]).0 <= k + 1 <= r@[j].1
        }),
{
    let lines = lines_of(content@);
    let chunks = chunks_from(lines, size as int, 0);
    law_chunks_are_windows(lines, size as int);
    assert(chunk_views(r@) == chunks);
    assert(chunks.len() == r@.len());
    assert forall|j: int| 0 <= j < r@.len() implies #[trigger] chunks[j] == (
        r@[j].0 as int,
        r@[j].1 as int,
        r@[j].2@,
    ) by {
        assert(chunk_views(r@)[j] == (r@[j].0 as int, r@[j].1 as int, r@[j].2@));
    }
    assert(is_window(lines, size as int, chunks[i]));
    if i + 1 < r@.len() {
        assert(chunks[i].1 < chunks[i + 1].0);
    }
    if !is_blank(lines[k]) {
        law_chunks_cover_the_text(lines, size as int, k);
        let j = choose|j: int| 0 <= j < chunks.len() && covers(#[trigger] chunks[j], k);
        assert(r@[j].0 <= k + 1 <= r@[j].1);
    }
}

/// The text of a range of lines is those lines, as far as there are such.
pub proof fn law_taking_a_snippet(content: &str, start: usize, end: usize, r: Option<String>)
    requires
        call_ensures(snippet_of, (content, start, end), r),
    ensures
        1 <= start <= end <= lines_of(content@).len() ==> (r matches Some(text) && text@ == joined(
            lines_of(content@).subrange(start - 1, end as int),
        )),
        r is None <==> start > end + 1 || start > lines_of(content@).len() + 1,
{
}

/// A crawl starts at its directory, with nothing counted and nothing awaited.
pub proof fn law_a_crawl_starts_at_its_directory(
    dir: &RepoPath,
    extensions: Vec<String>,
    out: Vec<RepoPath>,
    r: Crawl,
)
    requires
        call_ensures(DirCache::crawl, (dir, extensions, out), r),
    ensures
        r@.out == path_views(out@),
        r@.extensions == views(extensions@),
        r@.pending == seq![dir@],
        r@.awaited is None,
        r@.visited == 0,
        r@.rescanned == 0,
{
}

/// A crawl needs the entries of the directory that it awaits, else the modification time of the
/// last of those that it has still to go into, else nothing.
pub proof fn law_what_a_crawl_needs(crawl: &Crawl, r: CrawlNeed)
    requires
        call_ensures(Crawl::need, (crawl,), r),
    ensures
        crawl@.awaited matches Some(a) ==> (r matches CrawlNeed::Items(dir) && dir@ == a.0),
        crawl@.awaited is None && crawl@.pending.len() > 0 ==> (r matches CrawlNeed::Mtime(dir)
            && dir@ == crawl@.pending.last()),
        crawl@.awaited is None && crawl@.pending.len() == 0 ==> r is Nothing,
{
}

/// A crawl goes through a cached listing only while that is of the modification time that the
/// directory has, and else awaits the entries.
pub proof fn law_crawling_uses_fresh_listings(
    cache: &DirCache,
    crawl: &mut Crawl,
    mtime: Option<i128>,
)
    requires
        old(crawl)@.awaited is None,
        old(crawl)@.pending.len() > 0,
        call_ensures(DirCache::crawl_inner, (cache, crawl, mtime), ()),
    ensures
        ({
            let dir = old(crawl)@.pending.last();
            let rest = CrawlView { pending: old(crawl)@.pending.drop_last(), ..old(crawl)@ };
            &&& mtime is None ==> final(crawl)@ == rest
            &&& mtime matches Some(m) ==> if cache@.contains_key(dir) && cache@[dir].mtime == m {
                has_gone_through(
                    CrawlView { visited: rest.visited + 1, ..rest },
                    final(crawl)@,
                    cache@[dir],
                )
            } else {
                final(crawl)@ == CrawlView {
                    visited: rest.visited + 1,
                    rescanned: rest.rescanned + 1,
                    awaited: Some((dir, m)),
                    ..rest
                }
            }
        }),
{
    law_crawls_use_fresh_listings(cache@, old(crawl)@, mtime);
}

/// A crawl goes through what it awaited, and the listing is cached under the modification time that
/// the directory had. Where the directory could not be read, that is the empty listing.
pub proof fn law_crawling_caches_what_it_lists(
    cache: &mut DirCache,
    crawl: &mut Crawl,
    items: Option<Vec<DirItem>>,
)
    requires
        old(crawl)@.awaited is Some,
        call_ensures(DirCache::rescan, (cache, crawl, items), ()),
    ensures
        ({
            let (dir, m) = old(crawl)@.awaited->0;
            let found = match items {
                Some(items) => listing(dir, m, Some(item_views(items@))),
                None => ListingView { mtime: m, files: seq![], subdirs: seq![] },
            };
            &&& final(cache)@ == old(cache)@.insert(dir, found)
            &&& has_gone_through(old(crawl)@, final(crawl)@, found)
        }),
{
    let (dir, m) = old(crawl)@.awaited->0;
    let given = match items {
        Some(items) => Some(item_views(items@)),
        None => None,
    };
    law_crawls_go_through_what_they_await(old(crawl)@, dir, m, given);
    assert(listing(dir, m, None) =~= (ListingView { mtime: m, files: seq![], subdirs: seq![] }));
}

/// Only the listing of the one directory is forgotten.
pub proof fn law_forgetting_a_listing(cache: &mut DirCache, dir: &RepoPath)
    requires
        call_ensures(DirCache::invalidate, (cache, dir), ()),
    ensures
        final(cache)@ == old(cache)@.remove(dir@),
{
}

/// A local directory is taken before an id, and an id before the default model.
pub proof fn law_choosing_a_model(dir: Option<String>, id: Option<String>, r: ModelSource)
    requires
        call_ensures(model_source, (dir, id), r),
    ensures
        dir matches Some(d) ==> (r matches ModelSource::Directory(x) && x@ == d@),
        dir is None ==> (id matches Some(i) ==> (r matches ModelSource::Hub(x) && x@ == i@)),
        dir is None && id is None ==> (r matches ModelSource::Hub(x) && x@
            == "sentence-transformers/all-MiniLM-L6-v2"@),
{
}

/// Caches, registries and the watcher start with nothing in them; a path has the components that it
/// is made of.
pub proof fn law_what_things_start_with(
    texts: ContentCache,
    nodes: FileCache,
    dirs: DirCache,
    extractors: ExtractorRegistry,
    backends: SearchBackendRegistry,
    watcher: RepoWatcher,
    anchored: bool,
    parts: Vec<Vec<u8>>,
    path: RepoPath,
)
    requires
        call_ensures(ContentCache::new, (), texts),
        call_ensures(FileCache::new, (), nodes),
        call_ensures(DirCache::new, (), dirs),
        call_ensures(ExtractorRegistry::new, (), extractors),
        call_ensures(SearchBackendRegistry::new, (), backends),
        call_ensures(RepoWatcher::new, (), watcher),
        call_ensures(RepoPath::new, (anchored, parts), path),
    ensures
        texts@.dom() == Set::<PathView>::empty(),
        nodes@.dom() == Set::<PathView>::empty(),
        dirs@.dom() == Set::<PathView>::empty(),
        extractors@.dom() == Set::<Seq<char>>::empty(),
        backends@.dom() == Set::<Seq<char>>::empty(),
        watcher@ == Set::<PathView>::empty(),
        path@ == (PathView { anchored, parts: parts@.map_values(|p: Vec<u8>| p@) }),
{
    assert(path@.parts =~= parts@.map_values(|p: Vec<u8>| p@));
}

/// A server starts without tools.
pub proof fn law_a_server_starts_without_tools<T: McpTool>(state: McpServerState<T>)
    requires
        call_ensures(McpServerState::<T>::new, (), state),
    ensures
        state@.len() == 0,
{
}

} // verus!
