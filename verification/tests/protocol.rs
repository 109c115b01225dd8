use std::sync::Arc;

use mcp_native_core::extractors::ExtractorRegistry;
use mcp_native_core::fast_search::FastSearchTool;
use mcp_native_core::json::Json;
use mcp_native_core::mcp::{
    dispatch, finish_call, handle_initialize, handle_list_tools, request_text, Dispatch,
    JsonRpcRequest, JsonRpcResponse, McpServerState, McpTool,
};
use mcp_native_core::parse_structure::ParseStructureTool;
use mcp_native_core::search_backend::SearchBackendRegistry;
use mcp_native_core::semantic_search::SemanticSearchTool;

struct NamedTool {
    name: &'static str,
    description: &'static str,
}

impl McpTool for NamedTool {
    fn name(&self) -> &'static str {
        self.name
    }

    fn description(&self) -> &'static str {
        self.description
    }

    fn input_schema(&self) -> Json {
        Json::empty().with("type", Json::text("object"))
    }
}

fn server() -> McpServerState<NamedTool> {
    let mut state = McpServerState::new();
    state.register_tool(NamedTool { name: "one", description: "first" });
    state.register_tool(NamedTool { name: "two", description: "second" });
    state
}

fn request(method: &str, params: Json, id: Option<Json>) -> JsonRpcRequest {
    JsonRpcRequest { jsonrpc: "2.0".to_string(), method: method.to_string(), params, id }
}

fn text<'a>(value: &'a Json, key: &str) -> &'a str {
    value.text_field(key).unwrap().as_str()
}

fn elements(value: &Json) -> &[Json] {
    match value {
        Json::List(list) => list,
        _ => panic!("no list"),
    }
}

fn keys(value: &Json) -> Vec<&str> {
    match value {
        Json::Object(fields) => fields.iter().map(|f| f.0.as_str()).collect(),
        _ => panic!("no object"),
    }
}

fn is_number(value: &Option<Json>, n: u64) -> bool {
    matches!(value, Some(Json::PosInt(m)) if *m == n)
}

fn assert_error(response: &JsonRpcResponse, code: i64, message: &str) {
    assert_eq!(response.jsonrpc, "2.0");
    assert!(response.result.is_none());
    let error = response.error.as_ref().unwrap();
    assert!(matches!(error.get("code"), Some(Json::NegInt(c)) if *c == code));
    assert_eq!(text(error, "message"), message);
}

#[test]
fn initialize_introduces_the_server() {
    let response = handle_initialize(Some(Json::PosInt(1)));
    assert_eq!(response.jsonrpc, "2.0");
    assert!(response.error.is_none());
    assert!(is_number(&response.id, 1));
    let result = response.result.unwrap();
    assert_eq!(keys(&result), vec!["protocolVersion", "capabilities", "serverInfo"]);
    assert_eq!(text(&result, "protocolVersion"), "2024-11-05");
    assert!(keys(result.get("capabilities").unwrap().get("tools").unwrap()).is_empty());
    let info = result.get("serverInfo").unwrap();
    assert_eq!(text(info, "name"), "mcp-native-core");
    assert_eq!(text(info, "version"), "0.1.0");
}

#[test]
fn tools_are_listed_once_each() {
    let mut state = server();
    state.register_tool(NamedTool { name: "one", description: "third" });
    let response = handle_list_tools(&state, Some(Json::text("x")));
    let result = response.result.unwrap();
    let tools = elements(result.get("tools").unwrap());
    let listed: Vec<(&str, &str)> = tools.iter().map(|t| (text(t, "name"), text(t, "description"))).collect();
    assert_eq!(listed, vec![("one", "third"), ("two", "second")]);
    assert_eq!(keys(&tools[0]), vec!["name", "description", "inputSchema"]);
    assert_eq!(text(tools[0].get("inputSchema").unwrap(), "type"), "object");
    assert_eq!(state.get("one").unwrap().description, "third");
    assert!(state.get("three").is_none());
}

#[test]
fn notifications_are_ignored() {
    let state = server();
    assert!(matches!(dispatch(&state, request("notifications/initialized", Json::Null, None)), Dispatch::Ignore));
    assert!(matches!(dispatch(&state, request("initialize", Json::Null, None)), Dispatch::Ignore));
}

#[test]
fn requests_are_routed_by_their_method() {
    let state = server();
    match dispatch(&state, request("initialize", Json::Null, Some(Json::PosInt(7)))) {
        Dispatch::Reply(response) => assert!(response.result.is_some() && is_number(&response.id, 7)),
        _ => panic!("a reply is due"),
    }
    match dispatch(&state, request("tools/list", Json::Null, Some(Json::PosInt(8)))) {
        Dispatch::Reply(response) => assert!(response.result.is_some() && is_number(&response.id, 8)),
        _ => panic!("a reply is due"),
    }
    match dispatch(&state, request("resources/list", Json::Null, Some(Json::PosInt(9)))) {
        Dispatch::Reply(response) => {
            assert_error(&response, -32601, "Method Not Found");
            assert!(is_number(&response.id, 9));
        }
        _ => panic!("a reply is due"),
    }
}

#[test]
fn calls_find_their_tool_and_arguments() {
    let state = server();
    let arguments = Json::empty().with("query", Json::text("x"));
    let params = Json::empty().with("name", Json::text("two")).with("arguments", arguments);
    match dispatch(&state, request("tools/call", params, Some(Json::PosInt(3)))) {
        Dispatch::Call(tool, arguments, id) => {
            assert_eq!(tool.description, "second");
            assert_eq!(text(&arguments, "query"), "x");
            assert!(is_number(&id, 3));
        }
        _ => panic!("a call is due"),
    }
    let params = Json::empty().with("name", Json::text("one"));
    match dispatch(&state, request("tools/call", params, Some(Json::PosInt(4)))) {
        Dispatch::Call(_, arguments, _) => assert!(matches!(arguments, Json::Null)),
        _ => panic!("a call is due"),
    }
}

#[test]
fn calls_of_unknown_tools_are_refused() {
    let state = server();
    let no_text = Json::empty().with("name", Json::PosInt(1));
    for params in [Json::empty().with("name", Json::text("three")), Json::Null, no_text] {
        match dispatch(&state, request("tools/call", params, Some(Json::PosInt(5)))) {
            Dispatch::Reply(response) => {
                assert_error(&response, -32601, "Tool not found");
                assert!(is_number(&response.id, 5));
            }
            _ => panic!("a reply is due"),
        }
    }
}

#[test]
fn outcomes_of_calls_become_responses() {
    let done = finish_call(Ok("{}".to_string()), Some(Json::PosInt(6)));
    assert!(done.error.is_none() && is_number(&done.id, 6));
    let result = done.result.unwrap();
    let blocks = elements(result.get("content").unwrap());
    assert_eq!(blocks.len(), 1);
    assert_eq!((text(&blocks[0], "type"), text(&blocks[0], "text")), ("text", "{}"));

    let failed = finish_call(Err("Missing root_dir".to_string()), Some(Json::PosInt(6)));
    assert_error(&failed, -32603, "Missing root_dir");
    assert!(is_number(&failed.id, 6));
}

#[test]
fn lines_hold_a_request_unless_they_are_blank() {
    assert_eq!(request_text("  {\"id\":1}\r\n"), Some("{\"id\":1}".to_string()));
    assert_eq!(request_text(" \t\n"), None);
    assert_eq!(request_text(""), None);
}

#[test]
fn fields_are_found_by_their_key() {
    let value = Json::empty().with("a", Json::PosInt(1)).with("b", Json::text("x")).with("a", Json::PosInt(2));
    assert!(matches!(value.get("a"), Some(Json::PosInt(1))));
    assert_eq!(value.u64_field("a"), Some(1));
    assert_eq!(value.u64_field("b"), None);
    assert_eq!(value.text_field("b"), Some(&"x".to_string()));
    assert!(value.text_field("a").is_none());
    assert!(value.get("c").is_none());
    assert!(Json::text("a").get("a").is_none());
    assert_eq!(Json::empty().with("n", Json::NegInt(-1)).u64_field("n"), None);
    assert_eq!(Json::empty().with("n", Json::Float(0x4000_0000_0000_0000)).u64_field("n"), None);
    assert_eq!(keys(&Json::Null.with("k", Json::Null)), vec!["k"]);
}

#[test]
fn lists_of_texts_leave_out_what_is_no_text() {
    let list = Json::list(vec![Json::text("rs"), Json::PosInt(1), Json::text("py"), Json::Null]);
    let value = Json::empty().with("extensions", list).with("one", Json::text("rs"));
    assert_eq!(value.texts_field("extensions"), vec!["rs", "py"]);
    assert!(value.texts_field("one").is_empty());
    assert!(value.texts_field("none").is_empty());
}

#[test]
fn copies_hold_the_same() {
    let value = Json::empty()
        .with("list", Json::list(vec![Json::Bool(true), Json::NegInt(-3), Json::Float(1), Json::Null]))
        .with("object", Json::empty().with("text", Json::text("t")));
    let copied = value.copy();
    assert_eq!(keys(&copied), vec!["list", "object"]);
    let list = elements(copied.get("list").unwrap());
    assert!(matches!(list, [Json::Bool(true), Json::NegInt(-3), Json::Float(1), Json::Null]));
    assert_eq!(text(copied.get("object").unwrap(), "text"), "t");
}

fn schema_summary(tool: &dyn McpTool) -> (Vec<String>, Vec<String>) {
    let schema = tool.input_schema();
    assert_eq!(text(&schema, "type"), "object");
    let properties = keys(schema.get("properties").unwrap()).iter().map(|k| k.to_string()).collect();
    (properties, schema.texts_field("required"))
}

#[test]
fn the_tools_describe_themselves() {
    let search = FastSearchTool::new(Arc::new(SearchBackendRegistry::new()));
    assert_eq!(search.name(), "fast_search");
    assert!(search.description().starts_with("Scans workspace files using zero-copy"));
    let (properties, required) = schema_summary(&search);
    assert_eq!(properties, vec!["root_dir", "query", "extensions", "backend"]);
    assert_eq!(required, vec!["root_dir", "query"]);
    let schema = search.input_schema();
    let extensions = schema.get("properties").unwrap().get("extensions").unwrap();
    assert_eq!(text(extensions, "type"), "array");
    assert_eq!(text(extensions.get("items").unwrap(), "type"), "string");
    assert_eq!(text(extensions, "description"), "Optional filters, e.g. ['rs', 'cs', 'py']");

    let parse = ParseStructureTool::new(Arc::new(ExtractorRegistry::new()));
    assert_eq!(parse.name(), "parse_structure");
    assert!(parse.description().starts_with("Extracts structural definitions"));
    let (properties, required) = schema_summary(&parse);
    assert_eq!(properties, vec!["file_path"]);
    assert_eq!(required, vec!["file_path"]);

    let semantic = SemanticSearchTool::new();
    assert_eq!(semantic.name(), "semantic_search");
    assert!(semantic.description().starts_with("Finds code conceptually related"));
    let (properties, required) = schema_summary(&semantic);
    assert_eq!(properties, vec!["root_dir", "query", "top_k", "extensions"]);
    assert_eq!(required, vec!["root_dir", "query"]);
    let schema = semantic.input_schema();
    assert_eq!(text(schema.get("properties").unwrap().get("top_k").unwrap(), "type"), "integer");
}
