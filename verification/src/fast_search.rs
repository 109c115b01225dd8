//! The tool that searches the files under a directory.

use std::sync::Arc;
use vstd::prelude::*;

use crate::content::Content;
use crate::dir_cache::CrawlStats;
use crate::json::{json_views, law_get_after_with, Json, JsonView};
use crate::mcp::{optional, McpTool};
use crate::schema::{
    property, property_view, schema, schema_view, strings_property, strings_property_view,
};
use crate::search_backend::{
    match_views, CompiledSearch, LineMatch, MatchView, SearchBackend, SearchBackendRegistry,
};
use crate::text::views;

verus! {

/// The tool that searches the files under a directory.
pub struct FastSearchTool {
    search_registry: Arc<SearchBackendRegistry>,
}

impl View for FastSearchTool {
    type V = Map<Seq<char>, Arc<dyn SearchBackend>>;

    closed spec fn view(&self) -> Map<Seq<char>, Arc<dyn SearchBackend>> {
        self.search_registry@
    }
}

impl McpTool for FastSearchTool {
    open spec fn called(&self) -> Seq<char> {
        "fast_search"@
    }

    open spec fn described(&self) -> Seq<char> {
        "Scans workspace files using zero-copy memory mapping and multi-threaded regex compilation."@
    }

    open spec fn schema(&self) -> JsonView {
        schema_view(
            JsonView::empty().with(
                "root_dir"@,
                property_view("string"@, "The target codebase absolute directory path"@),
            ).with("query"@, property_view("string"@, "Regex matching pattern string"@)).with(
                "extensions"@,
                strings_property_view("Optional filters, e.g. ['rs', 'cs', 'py']"@),
            ).with(
                "backend"@,
                property_view("string"@, "Search backend to use, e.g. 'regex' (default)"@),
            ),
            seq!["root_dir"@, "query"@],
        )
    }

    fn name(&self) -> (r: &'static str) {
        "fast_search"
    }

    fn description(&self) -> (r: &'static str) {
        "Scans workspace files using zero-copy memory mapping and multi-threaded regex compilation."
    }

    fn input_schema(&self) -> (r: Json) {
        let properties = Json::empty().with(
            "root_dir",
            property("string", "The target codebase absolute directory path"),
        ).with("query", property("string", "Regex matching pattern string")).with(
            "extensions",
            strings_property("Optional filters, e.g. ['rs', 'cs', 'py']"),
        ).with("backend", property("string", "Search backend to use, e.g. 'regex' (default)"));
        let required: Vec<String> = vec!["root_dir".to_string(), "query".to_string()];
        assert(views(required@) =~= seq!["root_dir"@, "query"@]);
        schema(properties, &required)
    }
}

/// What a search is to do.
pub struct SearchPlan {
    pub root_dir: String,
    pub extensions: Vec<String>,
    pub compiled: CompiledSearch,
}

/// The name of the backend that a search asks for: `regex` where it names none.
pub open spec fn wanted_backend(params: JsonView) -> Seq<char> {
    match params.text_field("backend"@) {
        Some(name) => name,
        None => "regex"@,
    }
}

/// Why a search with these arguments is refused, if it is.
pub open spec fn search_refusal(
    backends: Map<Seq<char>, Arc<dyn SearchBackend>>,
    params: JsonView,
) -> Option<Seq<char>> {
    if params.text_field("root_dir"@) is None {
        Some("Missing root_dir"@)
    } else if params.text_field("query"@) is None {
        Some("Missing query pattern"@)
    } else if !backends.contains_key(wanted_backend(params)) {
        Some("Unknown search backend: "@ + wanted_backend(params))
    } else {
        backends[wanted_backend(params)].refusal(params.text_field("query"@)->0)
    }
}

/// How a line that matched is written.
pub open spec fn match_json(m: MatchView) -> JsonView {
    JsonView::empty().with("line"@, JsonView::PosInt(m.line as u64)).with(
        "text"@,
        JsonView::Text(m.text),
    )
}

/// How the lines of a file that matched are written.
pub open spec fn matches_json(found: Seq<MatchView>) -> JsonView {
    JsonView::List(Seq::new(found.len(), |i: int| match_json(found[i])))
}

/// What is written of a file in which lines matched. Nothing is written of any other.
pub open spec fn file_block(file: Seq<char>, found: Seq<MatchView>) -> Option<JsonView> {
    if found.len() == 0 {
        None
    } else {
        Some(
            JsonView::empty().with("file"@, JsonView::Text(file)).with(
                "matches"@,
                matches_json(found),
            ),
        )
    }
}

/// What a search came to in one file: whether its text was cached, and what is written of it.
pub struct FileSearch {
    pub cached: bool,
    pub block: Option<Json>,
}

/// Whether `searched` is what a search comes to in a file: whether its text was cached, and what
/// is written of it. Nothing is written of a file without a text.
pub open spec fn is_searched(
    compiled: CompiledSearch,
    file: Seq<char>,
    content: Content,
    searched: FileSearch,
) -> bool {
    &&& searched.cached == (content is Cached)
    &&& optional(searched.block) == match content.text() {
        Some(text) => file_block(file, compiled.found(text)),
        None => None,
    }
}

/// How the lines of a file that matched are written.
fn write_matches(found: &Vec<LineMatch>) -> (r: Json)
    ensures
        r@ == matches_json(match_views(found@)),
{
    let n: usize = found.len();
    let ghost wanted = Seq::new(
        match_views(found@).len(),
        |i: int| match_json(match_views(found@)[i]),
    );
    let mut list: Vec<Json> = Vec::new();
    let mut i: usize = 0;
    while i < n
        invariant
            i <= n == found@.len(),
            wanted == Seq::new(
                match_views(found@).len(),
                |i: int| match_json(match_views(found@)[i]),
            ),
            json_views(list@) == wanted.take(i as int),
        decreases n - i,
    {
        let m = &found[i];
        let item = Json::empty().with("line", Json::PosInt(m.line as u64)).with(
            "text",
            Json::text(m.text.as_str()),
        );
        let ghost before = list@;
        list.push(item);
        assert(json_views(list@) =~= json_views(before).push(item@));
        assert(item@ == wanted[i as int]);
        i = i + 1;
        assert(json_views(list@) =~= wanted.take(i as int));
    }
    assert(json_views(list@) =~= wanted);
    Json::list(list)
}

/// How many of `files` were cached.
pub open spec fn cached_among(files: Seq<FileSearch>) -> nat
    decreases files.len(),
{
    if files.len() == 0 {
        0
    } else {
        cached_among(files.drop_last()) + (if files.last().cached {
            1nat
        } else {
            0nat
        })
    }
}

/// What is written of `files`, in their order.
pub open spec fn blocks_among(files: Seq<FileSearch>) -> Seq<JsonView>
    decreases files.len(),
{
    if files.len() == 0 {
        Seq::empty()
    } else {
        match files.last().block {
            Some(block) => blocks_among(files.drop_last()).push(block@),
            None => blocks_among(files.drop_last()),
        }
    }
}

/// The result of a search.
pub open spec fn search_result(
    stats: CrawlStats,
    latency_ms: u64,
    files: Seq<FileSearch>,
) -> JsonView {
    let hits = cached_among(files);
    JsonView::empty().with("status"@, JsonView::Text("success"@)).with(
        "search_latency_ms"@,
        JsonView::PosInt(latency_ms),
    ).with("directories_scanned"@, JsonView::PosInt(stats.dirs_visited as u64)).with(
        "directories_rescanned"@,
        JsonView::PosInt(stats.dirs_rescanned as u64),
    ).with("content_cache_hits"@, JsonView::PosInt(hits as u64)).with(
        "content_cache_misses"@,
        JsonView::PosInt((files.len() - hits) as u64),
    ).with("matches"@, JsonView::List(blocks_among(files)))
}

impl FastSearchTool {
    /// The tool that searches by the backends of `search_registry`.
    pub fn new(search_registry: Arc<SearchBackendRegistry>) -> (r: FastSearchTool)
        ensures
            r@ == search_registry@,
    {
        FastSearchTool { search_registry }
    }

    /// Makes a plan of the arguments of a call, or says why they are refused.
    pub fn plan(&self, params: &Json) -> (r: Result<SearchPlan, String>)
        ensures
            match r {
                Ok(plan) => search_refusal(self@, params@) is None && params@.text_field(
                    "root_dir"@,
                ) == Some(plan.root_dir@) && views(plan.extensions@) == params@.texts_field(
                    "extensions"@,
                ) && forall|content: Seq<char>| #[trigger]
                    plan.compiled.found(content) == self@[wanted_backend(params@)].found_by(
                        params@.text_field("query"@)->0,
                        content,
                    ),
                Err(e) => search_refusal(self@, params@) == Some(e@),
            },
    {
        let root_dir = match params.text_field("root_dir") {
            Some(s) => s,
            None => {
                return Err("Missing root_dir".to_string());
            },
        };
        let query = match params.text_field("query") {
            Some(s) => s,
            None => {
                return Err("Missing query pattern".to_string());
            },
        };
        let extensions = params.texts_field("extensions");
        let backend_name = match params.text_field("backend") {
            Some(s) => s.clone(),
            None => "regex".to_string(),
        };
        match self.search_registry.get(backend_name.as_str()) {
            Some(backend) => match backend.compile(query.as_str()) {
                Ok(compiled) => Ok(
                    SearchPlan { root_dir: root_dir.clone(), extensions, compiled },
                ),
                Err(e) => Err(e),
            },
            None => {
                let mut message = "Unknown search backend: ".to_string();
                message.append(backend_name.as_str());
                Err(message)
            },
        }
    }

    /// Searches the text of one file, if it has one.
    pub fn search_file(compiled: &CompiledSearch, file: &str, content: &Content) -> (r: FileSearch)
        ensures
            is_searched(*compiled, file@, *content, r),
    {
        let (text, cached) = match content {
            Content::Cached(text) => (text, true),
            Content::Read(text) => (text, false),
            Content::Missing => {
                return FileSearch { cached: false, block: None };
            },
        };
        let found = compiled.find_matches(text.as_str());
        assert(match_views(found@).len() == found@.len());
        if found.len() == 0 {
            return FileSearch { cached, block: None };
        }
        let block = Json::empty().with("file", Json::text(file)).with(
            "matches",
            write_matches(&found),
        );
        FileSearch { cached, block: Some(block) }
    }

    /// The result of a search, given what it came to in each file.
    pub fn result(stats: &CrawlStats, latency_ms: u64, files: &Vec<FileSearch>) -> (r: Json)
        ensures
            r@ == search_result(*stats, latency_ms, files@),
    {
        let n: usize = files.len();
        let mut hits: usize = 0;
        let mut blocks: Vec<Json> = Vec::new();
        let mut i: usize = 0;
        assert(json_views(blocks@) =~= Seq::<JsonView>::empty());
        while i < n
            invariant
                i <= n == files@.len(),
                hits <= i,
                hits == cached_among(files@.take(i as int)),
                json_views(blocks@) == blocks_among(files@.take(i as int)),
            decreases n - i,
        {
            let ghost next = files@.take(i + 1);
            assert(next.drop_last() =~= files@.take(i as int));
            assert(next.last() == files@[i as int]);
            let file = &files[i];
            if file.cached {
                hits = hits + 1;
            }
            if let Some(block) = &file.block {
                let ghost before = blocks@;
                let copied = block.copy();
                blocks.push(copied);
                assert(json_views(blocks@) =~= json_views(before).push(block@));
            }
            i = i + 1;
        }
        assert(files@.take(n as int) =~= files@);
        Json::empty().with("status", Json::text("success")).with(
            "search_latency_ms",
            Json::PosInt(latency_ms),
        ).with("directories_scanned", Json::PosInt(stats.dirs_visited as u64)).with(
            "directories_rescanned",
            Json::PosInt(stats.dirs_rescanned as u64),
        ).with("content_cache_hits", Json::PosInt(hits as u64)).with(
            "content_cache_misses",
            Json::PosInt((n - hits) as u64),
        ).with("matches", Json::list(blocks))
    }
}

/// The hits and misses of a result add up to the files that were searched.
pub proof fn law_hits_and_misses_add_up(
    stats: CrawlStats,
    latency_ms: u64,
    files: Seq<FileSearch>,
)
    requires
        files.len() <= u64::MAX,
    ensures
        ({
            let result = search_result(stats, latency_ms, files);
            &&& result.u64_field("content_cache_hits"@) matches Some(hits)
            &&& result.u64_field("content_cache_misses"@) matches Some(misses)
            &&& hits + misses == files.len()
        }),
{
    lemma_cached_among(files);
    lemma_result_fields(stats, latency_ms, files);
}

/// The fields of a result that the cache has a part in.
pub proof fn lemma_result_fields(stats: CrawlStats, latency_ms: u64, files: Seq<FileSearch>)
    ensures
        ({
            let result = search_result(stats, latency_ms, files);
            let hits = cached_among(files);
            &&& result.get("directories_rescanned"@) == Some(
                JsonView::PosInt(stats.dirs_rescanned as u64),
            )
            &&& result.get("content_cache_hits"@) == Some(JsonView::PosInt(hits as u64))
            &&& result.get("content_cache_misses"@) == Some(
                JsonView::PosInt((files.len() - hits) as u64),
            )
            &&& result.get("matches"@) == Some(JsonView::List(blocks_among(files)))
        }),
{
    lemma_field(stats, latency_ms, files, "directories_rescanned"@);
    lemma_field(stats, latency_ms, files, "content_cache_hits"@);
    lemma_field(stats, latency_ms, files, "content_cache_misses"@);
    lemma_field(stats, latency_ms, files, "matches"@);
    lemma_keys_differ();
}

/// No two keys of a result have the same length.
proof fn lemma_keys_differ()
    ensures
        "status"@.len() == 6,
        "search_latency_ms"@.len() == 17,
        "directories_scanned"@.len() == 19,
        "directories_rescanned"@.len() == 21,
        "content_cache_hits"@.len() == 18,
        "content_cache_misses"@.len() == 20,
        "matches"@.len() == 7,
{
    reveal_strlit("status");
    reveal_strlit("search_latency_ms");
    reveal_strlit("directories_scanned");
    reveal_strlit("directories_rescanned");
    reveal_strlit("content_cache_hits");
    reveal_strlit("content_cache_misses");
    reveal_strlit("matches");
}

/// What a result has under a key.
proof fn lemma_field(stats: CrawlStats, latency_ms: u64, files: Seq<FileSearch>, key: Seq<char>)
    ensures
        search_result(stats, latency_ms, files).get(key) == (if key == "status"@ {
            Some(JsonView::Text("success"@))
        } else if key == "search_latency_ms"@ {
            Some(JsonView::PosInt(latency_ms))
        } else if key == "directories_scanned"@ {
            Some(JsonView::PosInt(stats.dirs_visited as u64))
        } else if key == "directories_rescanned"@ {
            Some(JsonView::PosInt(stats.dirs_rescanned as u64))
        } else if key == "content_cache_hits"@ {
            Some(JsonView::PosInt(cached_among(files) as u64))
        } else if key == "content_cache_misses"@ {
            Some(JsonView::PosInt((files.len() - cached_among(files)) as u64))
        } else if key == "matches"@ {
            Some(JsonView::List(blocks_among(files)))
        } else {
            None
        }),
{
    let o0 = JsonView::empty();
    let v1 = JsonView::Text("success"@);
    let o1 = o0.with("status"@, v1);
    let v2 = JsonView::PosInt(latency_ms);
    let o2 = o1.with("search_latency_ms"@, v2);
    let v3 = JsonView::PosInt(stats.dirs_visited as u64);
    let o3 = o2.with("directories_scanned"@, v3);
    let v4 = JsonView::PosInt(stats.dirs_rescanned as u64);
    let o4 = o3.with("directories_rescanned"@, v4);
    let v5 = JsonView::PosInt(cached_among(files) as u64);
    let o5 = o4.with("content_cache_hits"@, v5);
    let v6 = JsonView::PosInt((files.len() - cached_among(files)) as u64);
    let o6 = o5.with("content_cache_misses"@, v6);
    let v7 = JsonView::List(blocks_among(files));
    law_get_after_with(o0, "status"@, v1, key);
    law_get_after_with(o1, "search_latency_ms"@, v2, key);
    law_get_after_with(o2, "directories_scanned"@, v3, key);
    law_get_after_with(o3, "directories_rescanned"@, v4, key);
    law_get_after_with(o4, "content_cache_hits"@, v5, key);
    law_get_after_with(o5, "content_cache_misses"@, v6, key);
    law_get_after_with(o6, "matches"@, v7, key);
    assert(o0.get(key) is None);
    assert(search_result(stats, latency_ms, files) == o6.with("matches"@, v7));
}

proof fn lemma_cached_among(files: Seq<FileSearch>)
    ensures
        cached_among(files) <= files.len(),
    decreases files.len(),
{
    if files.len() > 0 {
        lemma_cached_among(files.drop_last());
    }
}

} // verus!
