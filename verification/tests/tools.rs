use std::sync::Arc;

use mcp_native_core::cache::{ContentCache, FileCache};
use mcp_native_core::chunks::{chunk_lines, CHUNK_LINES};
use mcp_native_core::content::{cached_content, read_content, Content};
use mcp_native_core::dir_cache::CrawlStats;
use mcp_native_core::embeddings::{model_source, ModelSource};
use mcp_native_core::extractors::{ExtractorRegistry, RegexExtractor};
use mcp_native_core::fast_search::{FastSearchTool, FileSearch};
use mcp_native_core::json::Json;
use mcp_native_core::parse_structure::{step_message, ParseStructureTool, ReadStep};
use mcp_native_core::paths::RepoPath;
use mcp_native_core::quantizer::QuantizedVector;
use mcp_native_core::ranking::Scored;
use mcp_native_core::search_backend::{RegexSearchBackend, SearchBackendRegistry};
use mcp_native_core::semantic_search::{FileStep, IndexedFile, SemanticSearchTool};
use mcp_native_core::vector_cache::VectorCache;

fn path(text: &str) -> RepoPath {
    let mut parts = vec![b"/".to_vec()];
    parts.extend(text.split('/').filter(|p| !p.is_empty()).map(|p| p.as_bytes().to_vec()));
    RepoPath::new(true, parts)
}

fn search_tool() -> FastSearchTool {
    let mut registry = SearchBackendRegistry::new();
    registry.register(Arc::new(RegexSearchBackend));
    FastSearchTool::new(Arc::new(registry))
}

fn parse_tool() -> ParseStructureTool {
    let mut registry = ExtractorRegistry::new();
    registry.register(Arc::new(RegexExtractor));
    ParseStructureTool::new(Arc::new(registry))
}

fn number(value: &Json, key: &str) -> u64 {
    value.u64_field(key).unwrap()
}

fn text<'a>(value: &'a Json, key: &str) -> &'a str {
    value.text_field(key).unwrap().as_str()
}

fn elements<'a>(value: &'a Json, key: &str) -> &'a [Json] {
    match value.get(key) {
        Some(Json::List(list)) => list,
        _ => panic!("no list"),
    }
}

fn search_params(query: &str) -> Json {
    Json::empty().with("root_dir", Json::text("/r")).with("query", Json::text(query))
}

#[test]
fn searches_need_a_root_a_query_and_a_known_backend() {
    let tool = search_tool();
    let refused = |params: Json| tool.plan(&params).err().unwrap();
    assert_eq!(refused(Json::Null), "Missing root_dir");
    assert_eq!(refused(Json::empty().with("root_dir", Json::PosInt(1))), "Missing root_dir");
    assert_eq!(refused(Json::empty().with("root_dir", Json::text("/r"))), "Missing query pattern");
    assert_eq!(
        refused(search_params("x").with("backend", Json::text("fuzzy"))),
        "Unknown search backend: fuzzy"
    );
    assert!(refused(search_params("(unclosed")).starts_with("Invalid Regex Compilation Error: "));
}

#[test]
fn searches_default_to_regular_expressions_and_any_extension() {
    let plan = search_tool().plan(&search_params("^pub")).ok().unwrap();
    assert_eq!(plan.root_dir, "/r");
    assert!(plan.extensions.is_empty());
    assert_eq!(plan.compiled.find_matches("pub fn\n pub\n").len(), 1);

    let params = search_params("x")
        .with("backend", Json::text("regex"))
        .with("extensions", Json::list(vec![Json::text("rs"), Json::PosInt(2)]));
    assert_eq!(search_tool().plan(&params).ok().unwrap().extensions, vec!["rs"]);
}

#[test]
fn files_without_matches_are_not_written() {
    let plan = search_tool().plan(&search_params("needle")).ok().unwrap();
    let hay = Content::Read(Arc::new("hay\n".to_string()));
    assert!(FastSearchTool::search_file(&plan.compiled, "/r/a", &hay).block.is_none());
    let missing = FastSearchTool::search_file(&plan.compiled, "/r/b", &Content::Missing);
    assert!(missing.block.is_none() && !missing.cached);

    let found = Content::Cached(Arc::new("hay\n  a needle \n".to_string()));
    let searched = FastSearchTool::search_file(&plan.compiled, "/r/c", &found);
    assert!(searched.cached);
    let block = searched.block.unwrap();
    assert_eq!(text(&block, "file"), "/r/c");
    let matches = elements(&block, "matches");
    assert_eq!(matches.len(), 1);
    assert_eq!((number(&matches[0], "line"), text(&matches[0], "text")), (2, "a needle"));
}

#[test]
fn search_results_count_hits_and_misses() {
    let block = |n: u64| Json::empty().with("n", Json::PosInt(n));
    let files = vec![
        FileSearch { cached: true, block: Some(block(1)) },
        FileSearch { cached: false, block: None },
        FileSearch { cached: false, block: Some(block(2)) },
        FileSearch { cached: false, block: None },
    ];
    let stats = CrawlStats { dirs_visited: 3, dirs_rescanned: 2 };
    let result = FastSearchTool::result(&stats, 12, &files);
    assert_eq!(text(&result, "status"), "success");
    assert_eq!(number(&result, "search_latency_ms"), 12);
    assert_eq!(number(&result, "directories_scanned"), 3);
    assert_eq!(number(&result, "directories_rescanned"), 2);
    assert_eq!(number(&result, "content_cache_hits"), 1);
    assert_eq!(number(&result, "content_cache_misses"), 3);
    let matches = elements(&result, "matches");
    assert_eq!(matches.iter().map(|m| number(m, "n")).collect::<Vec<_>>(), vec![1, 2]);
}

#[test]
fn parses_need_a_file() {
    assert_eq!(ParseStructureTool::target(&Json::empty()), Err("Missing file_path".to_string()));
    let params = Json::empty().with("file_path", Json::text("/r/a.rs"));
    assert_eq!(ParseStructureTool::target(&params), Ok("/r/a.rs".to_string()));
}

#[test]
fn failed_steps_are_named() {
    assert_eq!(step_message(ReadStep::Stat, "x"), "Failed to stat file: x");
    assert_eq!(step_message(ReadStep::Mtime, "x"), "Failed to read mtime: x");
    assert_eq!(step_message(ReadStep::Open, "x"), "Failed to open file: x");
    assert_eq!(step_message(ReadStep::MemoryMap, "x"), "Mmap failed: x");
}

#[test]
fn a_file_is_parsed_once_while_it_stays_unchanged() {
    let tool = parse_tool();
    let mut cache = FileCache::new();
    let file = path("/r/a.rs");
    let bytes = b"// c\npub fn f() {\n".to_vec();
    assert!(ParseStructureTool::cached_result(&cache, "/r/a.rs", &file, 1, 18).is_none());

    let first = tool.parse(&mut cache, "/r/a.rs", &file, 1, 18, &bytes).ok().unwrap();
    assert_eq!(text(&first, "status"), "success");
    assert_eq!(text(&first, "file"), "/r/a.rs");
    assert_eq!(text(&first, "detected_language"), "rs");
    assert!(matches!(first.get("cache_hit"), Some(Json::Bool(false))));
    let nodes = elements(&first, "structural_skeleton");
    assert_eq!(nodes.len(), 1);
    assert_eq!((number(&nodes[0], "line"), text(&nodes[0], "declaration")), (2, "pub fn f() {"));

    let second = ParseStructureTool::cached_result(&cache, "/r/a.rs", &file, 1, 18).unwrap();
    assert!(matches!(second.get("cache_hit"), Some(Json::Bool(true))));
    let again = elements(&second, "structural_skeleton");
    assert_eq!((number(&again[0], "line"), text(&again[0], "declaration")), (2, "pub fn f() {"));
    assert!(ParseStructureTool::cached_result(&cache, "/r/a.rs", &file, 2, 18).is_none());
}

#[test]
fn files_in_no_known_language_have_no_structure() {
    let tool = parse_tool();
    let mut cache = FileCache::new();
    for (name, language) in [("/r/a.txt", "txt"), ("/r/Makefile", ""), ("/r/.bashrc", "")] {
        let result = tool.parse(&mut cache, name, &path(name), 1, 1, &b"fn f() {".to_vec()).ok().unwrap();
        assert_eq!(text(&result, "detected_language"), language);
        assert!(elements(&result, "structural_skeleton").is_empty());
    }
}

#[test]
fn files_that_are_no_text_are_refused() {
    let mut cache = FileCache::new();
    let error = parse_tool().parse(&mut cache, "/r/a.rs", &path("/r/a.rs"), 1, 2, &vec![b'a', 0xff]).err().unwrap();
    let reason = String::from_utf8(vec![b'a', 0xff]).unwrap_err().utf8_error().to_string();
    assert_eq!(error, format!("Invalid UTF-8 sequence: {reason}"));
    assert!(cache.get_if_fresh(&path("/r/a.rs"), 1, 2).is_none());
}

#[test]
fn semantic_searches_need_a_root_and_a_query() {
    let refused = |params: Json| SemanticSearchTool::plan(&params).err().unwrap();
    assert_eq!(refused(Json::empty()), "Missing root_dir");
    assert_eq!(refused(Json::empty().with("root_dir", Json::text("/r"))), "Missing query");

    let plan = SemanticSearchTool::plan(&search_params("find it")).ok().unwrap();
    assert_eq!((plan.root_dir.as_str(), plan.query.as_str(), plan.top_k), ("/r", "find it", 10));
    assert!(plan.extensions.is_empty());

    let params = search_params("q").with("top_k", Json::PosInt(3)).with("extensions", Json::list(vec![Json::text("py")]));
    let plan = SemanticSearchTool::plan(&params).ok().unwrap();
    assert_eq!((plan.top_k, plan.extensions), (3, vec!["py".to_string()]));
    let negative = search_params("q").with("top_k", Json::NegInt(-3));
    assert_eq!(SemanticSearchTool::plan(&negative).ok().unwrap().top_k, 10);
}

fn vector(coordinate: f64) -> QuantizedVector {
    QuantizedVector::encode(&vec![coordinate.to_bits()], &vec![0.0f64.to_bits()])
}

#[test]
fn windows_that_could_not_be_embedded_are_left_out() {
    let mut index = VectorCache::new(1_000);
    let content = (1..=100).map(|n| format!("line {n}")).collect::<Vec<_>>().join("\n");
    let windows = chunk_lines(&content, CHUNK_LINES);
    assert_eq!(windows.len(), 3);
    let vectors = vec![Some(vector(1.0)), None, Some(vector(-1.0))];
    let file = path("/r/a.rs");
    let indexed = SemanticSearchTool::index(&mut index, &file, 1, 2, &windows, vectors);
    assert!(!indexed.reused);
    let ranges: Vec<(usize, usize)> = indexed.chunks.iter().map(|c| (c.start_line, c.end_line)).collect();
    assert_eq!(ranges, vec![(1, 40), (81, 100)]);

    let contents = ContentCache::new();
    let reused = match SemanticSearchTool::begin_file(&mut index, &contents, &file, Some((1, 2))) {
        FileStep::Done(reused) => reused,
        _ => panic!("the vectors are in the index"),
    };
    assert!(reused.reused);
    assert_eq!(reused.chunks.len(), 2);

    let scored = SemanticSearchTool::score(&reused, &vec![0.5f64.to_bits(), 0.25f64.to_bits()]);
    assert_eq!((scored[1].start_line, scored[1].end_line), (81, 100));
    assert_eq!(f64::from_bits(scored[1].similarity), 0.25);

    let result = SemanticSearchTool::result("q", &vec![indexed, reused], vec![Json::Null]);
    assert_eq!(text(&result, "status"), "success");
    assert_eq!(text(&result, "query"), "q");
    assert_eq!(number(&result, "chunks_indexed"), 2);
    assert_eq!(number(&result, "chunks_reused_from_cache"), 2);
    assert_eq!(elements(&result, "results").len(), 1);
}

#[test]
fn files_are_read_only_where_neither_vectors_nor_text_are_fresh() {
    let mut index = VectorCache::new(1_000);
    let mut contents = ContentCache::new();
    let file = path("/r/a.rs");
    assert!(matches!(SemanticSearchTool::begin_file(&mut index, &contents, &file, None), FileStep::Dropped));
    assert!(matches!(SemanticSearchTool::begin_file(&mut index, &contents, &file, Some((1, 5))), FileStep::Read));
    assert!(matches!(SemanticSearchTool::read_file(&mut contents, &file, 1, 5, None), FileStep::Dropped));
    assert!(matches!(SemanticSearchTool::read_file(&mut contents, &file, 1, 5, Some(vec![0xff])), FileStep::Dropped));
    match SemanticSearchTool::read_file(&mut contents, &file, 1, 5, Some(b"fn f\n".to_vec())) {
        FileStep::Embed(windows) => assert_eq!(windows, vec![(1, 1, "fn f".to_string())]),
        _ => panic!("the text was read"),
    }
    match SemanticSearchTool::begin_file(&mut index, &contents, &file, Some((1, 5))) {
        FileStep::Embed(windows) => {
            assert_eq!(windows, vec![(1, 1, "fn f".to_string())]);
            SemanticSearchTool::index(&mut index, &file, 1, 5, &windows, vec![Some(vector(1.0))]);
        }
        _ => panic!("the text is cached"),
    }
    assert!(matches!(SemanticSearchTool::begin_file(&mut index, &contents, &file, Some((1, 5))), FileStep::Done(_)));
    assert!(matches!(SemanticSearchTool::begin_file(&mut index, &contents, &file, Some((2, 5))), FileStep::Read));
}

#[test]
fn snippets_come_from_fresh_texts_only() {
    let mut cache = ContentCache::new();
    let file = path("/r/a.rs");
    cache.store(&file, 1, 5, Arc::new("a\nb\nc".to_string()));
    let at = |stamp, start, end| SemanticSearchTool::snippet_for(&cache, &file, stamp, start, end);
    assert_eq!(at(Some((1, 5)), 2, 3), Some("b\nc".to_string()));
    assert_eq!(at(Some((2, 5)), 2, 3), None);
    assert_eq!(at(None, 2, 3), None);
    assert_eq!(at(Some((1, 5)), 9, 9), None);
}

#[test]
fn matches_are_written_with_their_place_and_similarity() {
    let item = |similarity: f64| Scored {
        similarity: similarity.to_bits(),
        path: path("/r/a.rs"),
        start_line: 41,
        end_line: 80,
    };
    let block = SemanticSearchTool::match_block("/r/a.rs", &item(0.75), Some("text".to_string()));
    assert_eq!(text(&block, "file"), "/r/a.rs");
    assert_eq!((number(&block, "start_line"), number(&block, "end_line")), (41, 80));
    assert!(matches!(block.get("similarity"), Some(Json::Float(bits)) if f64::from_bits(*bits) == 0.75));
    assert_eq!(text(&block, "snippet"), "text");

    let bare = SemanticSearchTool::match_block("/r/a.rs", &item(f64::NAN), None);
    assert!(matches!(bare.get("similarity"), Some(Json::Null)));
    assert!(matches!(bare.get("snippet"), Some(Json::Null)));
    let infinite = SemanticSearchTool::match_block("/r/a.rs", &item(f64::INFINITY), None);
    assert!(matches!(infinite.get("similarity"), Some(Json::Null)));
}

#[test]
fn models_come_from_the_directory_that_is_set_or_from_the_hub() {
    let some = |s: &str| Some(s.to_string());
    assert!(matches!(model_source(some("/m"), some("a/b")), ModelSource::Directory(d) if d == "/m"));
    assert!(matches!(model_source(None, some("a/b")), ModelSource::Hub(id) if id == "a/b"));
    assert!(
        matches!(model_source(None, None), ModelSource::Hub(id) if id == "sentence-transformers/all-MiniLM-L6-v2")
    );
}

const FILES: [(&str, &str); 3] = [("/r/a", "needle one\nhay"), ("/r/b", "hay"), ("/r/c", "two\nneedle")];

/// Searches `FILES`, all of them stamped.
fn search_all(cache: &mut ContentCache, query: &str) -> Json {
    let plan = search_tool().plan(&search_params(query)).ok().unwrap();
    let mut searched = Vec::new();
    for (name, text) in FILES {
        let stamp = Some((7, text.len() as u64));
        let content = match cached_content(cache, &path(name), stamp) {
            Some(content) => content,
            None => read_content(cache, &path(name), stamp, Some(text.as_bytes().to_vec())),
        };
        searched.push(FastSearchTool::search_file(&plan.compiled, name, &content));
    }
    FastSearchTool::result(&CrawlStats { dirs_visited: 1, dirs_rescanned: 0 }, 0, &searched)
}

fn summary(result: &Json) -> Vec<(String, u64, String)> {
    let mut out = Vec::new();
    for block in elements(result, "matches") {
        for m in elements(block, "matches") {
            out.push((text(block, "file").to_string(), number(m, "line"), text(m, "text").to_string()));
        }
    }
    out
}

#[test]
fn a_second_search_is_all_hits() {
    let mut cache = ContentCache::new();
    let first = search_all(&mut cache, "needle");
    assert_eq!((number(&first, "content_cache_hits"), number(&first, "content_cache_misses")), (0, 3));
    let second = search_all(&mut cache, "needle");
    assert_eq!((number(&second, "content_cache_hits"), number(&second, "content_cache_misses")), (3, 0));
    assert_eq!(summary(&second), summary(&first));
    assert_eq!(summary(&first).len(), 2);
    let other = search_all(&mut cache, "hay");
    assert_eq!((number(&other, "content_cache_hits"), number(&other, "content_cache_misses")), (3, 0));
}

/// Searches `FILES` by meaning, with a number for a model.
fn search_by_meaning(index: &mut VectorCache, contents: &mut ContentCache) -> (Json, Vec<(u64, usize, usize)>) {
    let mut files: Vec<IndexedFile> = Vec::new();
    let mut similarities: Vec<Vec<u64>> = Vec::new();
    for (name, text) in FILES {
        let (mtime, len) = (7, text.len() as u64);
        let mut step = SemanticSearchTool::begin_file(index, contents, &path(name), Some((mtime, len)));
        if let FileStep::Read = step {
            step = SemanticSearchTool::read_file(contents, &path(name), mtime, len, Some(text.as_bytes().to_vec()));
        }
        let file = match step {
            FileStep::Done(file) => file,
            FileStep::Embed(windows) => {
                let vectors = windows.iter().map(|w| Some(vector(w.2.len() as f64 - 5.0))).collect();
                SemanticSearchTool::index(index, &path(name), mtime, len, &windows, vectors)
            }
            _ => panic!("every file is text"),
        };
        let centroids: Vec<u64> = (0..256).map(|i| f64::from(i).to_bits()).collect();
        similarities.push(file.chunks.iter().map(|c| c.vector.decode(&centroids)[0]).collect());
        files.push(file);
    }
    let best = SemanticSearchTool::rank(&files, &similarities, 10)
        .iter()
        .map(|s| (s.similarity, s.start_line, s.end_line))
        .collect();
    (SemanticSearchTool::result("q", &files, Vec::new()), best)
}

#[test]
fn a_second_search_by_meaning_reuses_everything() {
    let mut index = VectorCache::new(1_000);
    let mut contents = ContentCache::new();
    let (first, found) = search_by_meaning(&mut index, &mut contents);
    assert_eq!((number(&first, "chunks_indexed"), number(&first, "chunks_reused_from_cache")), (3, 0));
    let (second, again) = search_by_meaning(&mut index, &mut contents);
    assert_eq!((number(&second, "chunks_indexed"), number(&second, "chunks_reused_from_cache")), (0, 3));
    assert_eq!(again, found);
    assert_eq!(found.len(), 3);
}

#[test]
fn matches_of_all_files_are_ranked_together() {
    let mut index = VectorCache::new(1_000);
    let windows = vec![(1, 1, "a".to_string()), (2, 2, "b".to_string())];
    let mut files = Vec::new();
    for name in ["/r/a", "/r/b"] {
        let vectors = vec![Some(vector(1.0)), Some(vector(1.0))];
        files.push(SemanticSearchTool::index(&mut index, &path(name), 1, 1, &windows, vectors));
    }
    let bits = |x: f64, y: f64| vec![x.to_bits(), y.to_bits()];
    let similarities = vec![bits(0.1, 0.9), bits(0.5, 0.9)];
    let place = |s: &Scored| (String::from_utf8(s.path.parts[2].clone()).unwrap(), s.start_line);
    let best: Vec<(String, usize)> = SemanticSearchTool::rank(&files, &similarities, 3).iter().map(place).collect();
    let at = |name: &str, line: usize| (name.to_string(), line);
    assert_eq!(best, vec![at("a", 2), at("b", 2), at("b", 1)]);
    assert!(SemanticSearchTool::rank(&Vec::new(), &Vec::new(), 3).is_empty());
}

#[test]
fn what_is_replaced_or_evicted_does_not_keep_a_search_from_being_repeated() {
    // Each vector takes 5 bytes: three fit, and two entries of other times are there at first.
    let mut index = VectorCache::new(15);
    let mut contents = ContentCache::new();
    let windows = vec![(1, 1, "x".to_string())];
    for name in ["/other", "/r/a"] {
        SemanticSearchTool::index(&mut index, &path(name), 1, 1, &windows, vec![Some(vector(1.0))]);
    }
    let (first, found) = search_by_meaning(&mut index, &mut contents);
    assert_eq!((number(&first, "chunks_indexed"), number(&first, "chunks_reused_from_cache")), (3, 0));
    let (second, again) = search_by_meaning(&mut index, &mut contents);
    assert_eq!((number(&second, "chunks_indexed"), number(&second, "chunks_reused_from_cache")), (0, 3));
    assert_eq!(again, found);
}
