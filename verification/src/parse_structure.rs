//! The tool that gives the structure of a file.

use std::sync::Arc;
use vstd::prelude::*;
use vstd::utf8::*;

use crate::cache::{served, stored, FileCache, Stamped};
use crate::extractors::{
    node_views, ExtractorRegistry, NodeView, StructuralExtractor, StructuralNode,
};
use crate::json::{json_views, Json, JsonView};
use crate::mcp::McpTool;
use crate::paths::{PathView, RepoPath};
use crate::schema::{property, property_view, schema, schema_view};
use crate::text::{decode, utf8_error_text, views};

verus! {

/// The tool that gives the structure of a file.
pub struct ParseStructureTool {
    registry: Arc<ExtractorRegistry>,
}

impl View for ParseStructureTool {
    type V = Map<Seq<char>, Arc<dyn StructuralExtractor>>;

    closed spec fn view(&self) -> Map<Seq<char>, Arc<dyn StructuralExtractor>> {
        self.registry@
    }
}

impl McpTool for ParseStructureTool {
    open spec fn called(&self) -> Seq<char> {
        "parse_structure"@
    }

    open spec fn described(&self) -> Seq<char> {
        "Extracts structural definitions (classes, functions, methods) from a file to optimize token usage."@
    }

    open spec fn schema(&self) -> JsonView {
        schema_view(
            JsonView::empty().with(
                "file_path"@,
                property_view("string"@, "Absolute path to the target source code file"@),
            ),
            seq!["file_path"@],
        )
    }

    fn name(&self) -> (r: &'static str) {
        "parse_structure"
    }

    fn description(&self) -> (r: &'static str) {
        "Extracts structural definitions (classes, functions, methods) from a file to optimize token usage."
    }

    fn input_schema(&self) -> (r: Json) {
        let properties = Json::empty().with(
            "file_path",
            property("string", "Absolute path to the target source code file"),
        );
        let required: Vec<String> = vec!["file_path".to_string()];
        assert(views(required@) =~= seq!["file_path"@]);
        schema(properties, &required)
    }
}

/// What can go wrong before a file's bytes are there.
#[derive(Clone, Copy, PartialEq, Eq, Structural)]
pub enum ReadStep {
    Stat,
    Mtime,
    Open,
    MemoryMap,
}

/// What the message for a failed step starts with.
pub open spec fn step_text(step: ReadStep) -> Seq<char> {
    match step {
        ReadStep::Stat => "Failed to stat file: "@,
        ReadStep::Mtime => "Failed to read mtime: "@,
        ReadStep::Open => "Failed to open file: "@,
        ReadStep::MemoryMap => "Mmap failed: "@,
    }
}

/// The message for a failed step.
pub fn step_message(step: ReadStep, reason: &str) -> (r: String)
    ensures
        r@ == step_text(step) + reason@,
{
    let mut message = match step {
        ReadStep::Stat => "Failed to stat file: ".to_string(),
        ReadStep::Mtime => "Failed to read mtime: ".to_string(),
        ReadStep::Open => "Failed to open file: ".to_string(),
        ReadStep::MemoryMap => "Mmap failed: ".to_string(),
    };
    message.append(reason);
    message
}

/// The language that a file is taken to be in: its extension, or nothing where it has none that is
/// valid UTF-8.
pub open spec fn language(path: PathView) -> Seq<char> {
    match path.extension_text() {
        Some(ext) => ext,
        None => ""@,
    }
}

/// The declarations of a file, by the extractor for its language. Without one, there are none.
pub open spec fn declarations(
    extractors: Map<Seq<char>, Arc<dyn StructuralExtractor>>,
    ext: Seq<char>,
    content: Seq<char>,
) -> Seq<NodeView> {
    if extractors.contains_key(ext) {
        extractors[ext].nodes(ext, content)
    } else {
        Seq::empty()
    }
}

/// How a declaration is written.
pub open spec fn node_json(node: NodeView) -> JsonView {
    JsonView::empty().with("line"@, JsonView::PosInt(node.line as u64)).with(
        "declaration"@,
        JsonView::Text(node.declaration),
    )
}

/// The result of a parse.
pub open spec fn structure_result(
    file: Seq<char>,
    ext: Seq<char>,
    nodes: Seq<NodeView>,
    cache_hit: bool,
) -> JsonView {
    JsonView::empty().with("status"@, JsonView::Text("success"@)).with(
        "file"@,
        JsonView::Text(file),
    ).with("detected_language"@, JsonView::Text(ext)).with(
        "structural_skeleton"@,
        JsonView::List(Seq::new(nodes.len(), |i: int| node_json(nodes[i]))),
    ).with("cache_hit"@, JsonView::Bool(cache_hit))
}

/// The result of a parse.
fn write_result(file: &str, ext: &str, nodes: &Vec<StructuralNode>, cache_hit: bool) -> (r: Json)
    ensures
        r@ == structure_result(file@, ext@, node_views(nodes@), cache_hit),
{
    let n: usize = nodes.len();
    let ghost all = node_views(nodes@);
    let ghost wanted = Seq::new(all.len(), |i: int| node_json(all[i]));
    let mut list: Vec<Json> = Vec::new();
    let mut i: usize = 0;
    while i < n
        invariant
            i <= n == nodes@.len(),
            all == node_views(nodes@),
            wanted == Seq::new(all.len(), |i: int| node_json(all[i])),
            json_views(list@) == wanted.take(i as int),
        decreases n - i,
    {
        let node = &nodes[i];
        let item = Json::empty().with("line", Json::PosInt(node.line as u64)).with(
            "declaration",
            Json::text(node.declaration.as_str()),
        );
        let ghost before = list@;
        list.push(item);
        assert(json_views(list@) =~= json_views(before).push(item@));
        assert(item@ == wanted[i as int]);
        i = i + 1;
        assert(json_views(list@) =~= wanted.take(i as int));
    }
    assert(json_views(list@) =~= wanted);
    Json::empty().with("status", Json::text("success")).with("file", Json::text(file)).with(
        "detected_language",
        Json::text(ext),
    ).with("structural_skeleton", Json::list(list)).with("cache_hit", Json::Bool(cache_hit))
}

impl ParseStructureTool {
    /// The tool that goes by the extractors of `registry`.
    pub fn new(registry: Arc<ExtractorRegistry>) -> (r: ParseStructureTool)
        ensures
            r@ == registry@,
    {
        ParseStructureTool { registry }
    }

    /// The file that a call asks for.
    pub fn target(params: &Json) -> (r: Result<String, String>)
        ensures
            match r {
                Ok(file) => params@.text_field("file_path"@) == Some(file@),
                Err(e) => params@.text_field("file_path"@) is None && e@ == "Missing file_path"@,
            },
    {
        match params.text_field("file_path") {
            Some(file) => Ok(file.clone()),
            None => Err("Missing file_path".to_string()),
        }
    }

    /// The language that a file is taken to be in.
    pub fn language(path: &RepoPath) -> (r: String)
        ensures
            r@ == language(path@),
    {
        match path.extension_text() {
            Some(ext) => ext,
            None => "".to_string(),
        }
    }

    /// The result for a file whose cached declarations are fresh.
    pub fn cached_result(cache: &FileCache, file: &str, path: &RepoPath, mtime: i128, len: u64) -> (r:
        Option<Json>)
        requires
            cache.wf(),
        ensures
            match r {
                Some(result) => served(cache@, path@, mtime, len) matches Some(nodes) && result@
                    == structure_result(file@, language(path@), node_views(nodes@), true),
                None => served(cache@, path@, mtime, len) is None,
            },
    {
        match cache.get_if_fresh(path, mtime, len) {
            Some(nodes) => {
                let ext = Self::language(path);
                Some(write_result(file, ext.as_str(), &nodes, true))
            },
            None => None,
        }
    }

    /// Parses the bytes of a file and records its declarations.
    pub fn parse(
        &self,
        cache: &mut FileCache,
        file: &str,
        path: &RepoPath,
        mtime: i128,
        len: u64,
        bytes: &Vec<u8>,
    ) -> (r: Result<Json, String>)
        requires
            old(cache).wf(),
        ensures
            final(cache).wf(),
            match r {
                Ok(result) => {
                    let ext = language(path@);
                    let nodes = declarations(self@, ext, decode_utf8(bytes@));
                    &&& valid_utf8(bytes@)
                    &&& result@ == structure_result(file@, ext, nodes, false)
                    &&& is_recorded(old(cache)@, final(cache)@, path@, mtime, len, nodes)
                },
                Err(e) => !valid_utf8(bytes@) && e@ == "Invalid UTF-8 sequence: "@
                    + utf8_error_text(bytes@) && final(cache)@ == old(cache)@,
            },
    {
        let content = match decode(bytes.as_slice()) {
            Ok(content) => content,
            Err(reason) => {
                let mut message = "Invalid UTF-8 sequence: ".to_string();
                message.append(reason.as_str());
                return Err(message);
            },
        };
        let ext = Self::language(path);
        let nodes: Vec<StructuralNode> = match self.registry.get(ext.as_str()) {
            Some(extractor) => extractor.extract(ext.as_str(), content.as_str()),
            None => Vec::new(),
        };
        assert(node_views(nodes@) =~= declarations(self@, ext@, content@));
        let result = write_result(file, ext.as_str(), &nodes, false);
        let shared = Arc::new(nodes);
        cache.store(path, mtime, len, shared);
        Ok(result)
    }
}

/// Whether a cache holds `nodes` for the file, under this modification time and length, and else
/// what it held before.
pub open spec fn is_recorded(
    before: Map<PathView, Stamped<Vec<StructuralNode>>>,
    after: Map<PathView, Stamped<Vec<StructuralNode>>>,
    path: PathView,
    mtime: i128,
    len: u64,
    nodes: Seq<NodeView>,
) -> bool {
    &&& after.contains_key(path)
    &&& node_views(after[path].value@) == nodes
    &&& after == stored(before, path, mtime, len, after[path].value)
}

/// What a parse records is what an unchanged file is answered with from then on, marked as found
/// in the cache; a file that has changed since is not answered from the cache.
pub proof fn law_unchanged_files_are_parsed_once(
    before: Map<PathView, Stamped<Vec<StructuralNode>>>,
    after: Map<PathView, Stamped<Vec<StructuralNode>>>,
    path: PathView,
    mtime: i128,
    len: u64,
    nodes: Seq<NodeView>,
)
    requires
        is_recorded(before, after, path, mtime, len, nodes),
    ensures
        served(after, path, mtime, len) matches Some(found) && node_views(found@) == nodes,
        forall|m: i128, l: u64|
            m != mtime || l != len ==> #[trigger] served(after, path, m, l) is None,
{
}

} // verus!
