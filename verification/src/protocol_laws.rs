//! What requests, responses and the values in them are, written out.

use vstd::prelude::*;

use crate::fast_search::FastSearchTool;
use crate::json::{field_of, json_views, text_or_null, texts_among, Json, JsonView};
use crate::mcp::{
    call_arguments, call_response, content_block, failure, listed, optional, outcome_of,
    server_card, success, tool_called, tool_list, wanted_tool, with_tool, McpTool, Outcome,
    RequestView, ResponseView, INTERNAL_ERROR, NOT_FOUND,
};
use crate::parse_structure::ParseStructureTool;
use crate::schema::{property_view, schema_view, strings_property_view};
use crate::semantic_search::SemanticSearchTool;

verus! {

/// A field of an object is the first one of its name; a value that is no object has no fields.
pub proof fn law_fields_are_found_by_name(value: JsonView, key: Seq<char>)
    ensures
        value matches JsonView::Object(fields) ==> match value.get(key) {
            Some(v) => exists|i: int|
                0 <= i < fields.len() && #[trigger] fields[i] == (key, v) && forall|j: int|
                    0 <= j < i ==> (#[trigger] fields[j]).0 != key,
            None => forall|i: int| 0 <= i < fields.len() ==> (#[trigger] fields[i]).0 != key,
        },
        !(value is Object) ==> value.get(key) is None,
{
    if let JsonView::Object(fields) = value {
        lemma_field_of(fields, key);
    }
}

proof fn lemma_field_of(fields: Seq<(Seq<char>, JsonView)>, key: Seq<char>)
    ensures
        match field_of(fields, key) {
            Some(v) => exists|i: int|
                0 <= i < fields.len() && #[trigger] fields[i] == (key, v) && forall|j: int|
                    0 <= j < i ==> (#[trigger] fields[j]).0 != key,
            None => forall|i: int| 0 <= i < fields.len() ==> (#[trigger] fields[i]).0 != key,
        },
    decreases fields.len(),
{
    if fields.len() > 0 && fields[0].0 == key {
        assert(fields[0] == (key, fields[0].1));
    } else if fields.len() > 0 {
        let rest = fields.drop_first();
        lemma_field_of(rest, key);
        match field_of(rest, key) {
            Some(v) => {
                let i = choose|i: int|
                    0 <= i < rest.len() && #[trigger] rest[i] == (key, v) && forall|j: int|
                        0 <= j < i ==> (#[trigger] rest[j]).0 != key;
                assert(fields[i + 1] == (key, v));
                assert forall|j: int| 0 <= j < i + 1 implies (#[trigger] fields[j]).0 != key by {
                    if j > 0 {
                        assert(rest[j - 1] == fields[j]);
                    }
                }
            },
            None => {
                assert forall|i: int| 0 <= i < fields.len() implies (#[trigger] fields[i]).0
                    != key by {
                    if i > 0 {
                        assert(rest[i - 1] == fields[i]);
                    }
                }
            },
        }
    }
}

/// A field is added behind those of an object; a value that is no object gives way to one with that
/// field alone.
pub proof fn law_fields_are_added_behind(value: JsonView, key: Seq<char>, added: JsonView)
    ensures
        JsonView::empty() == JsonView::Object(seq![]),
        value.with(key, added) == JsonView::Object(
            (match value {
                JsonView::Object(fields) => fields,
                _ => seq![],
            }) + seq![(key, added)],
        ),
{
    let fields = match value {
        JsonView::Object(fields) => fields,
        _ => seq![],
    };
    assert(value.with(key, added)->Object_0 =~= fields + seq![(key, added)]);
}

/// A field has a text if it is a string, a number if it is a natural number, and texts if it is a
/// list: the strings in it, in their order.
pub proof fn law_fields_have_types(value: JsonView, key: Seq<char>)
    ensures
        value.text_field(key) == (match value.get(key) {
            Some(JsonView::Text(s)) => Some(s),
            _ => None,
        }),
        value.u64_field(key) == (match value.get(key) {
            Some(JsonView::PosInt(n)) => Some(n),
            _ => None,
        }),
        value.texts_field(key) == (match value.get(key) {
            Some(JsonView::List(elements)) => elements.filter_map(
                |e: JsonView|
                    match e {
                        JsonView::Text(s) => Some(s),
                        _ => None,
                    },
            ),
            _ => seq![],
        }),
{
    if let Some(JsonView::List(elements)) = value.get(key) {
        lemma_texts_among(elements);
    }
}

proof fn lemma_texts_among(elements: Seq<JsonView>)
    ensures
        texts_among(elements) == elements.filter_map(
            |e: JsonView|
                match e {
                    JsonView::Text(s) => Some(s),
                    _ => None,
                },
        ),
    decreases elements.len(),
{
    reveal(Seq::filter_map);
    if elements.len() > 0 {
        lemma_texts_among(elements.drop_last());
    }
}

/// A value stands for what it holds; a text that is missing is written as null.
pub proof fn law_values_stand_for_what_they_hold(
    value: Json,
    elements: Vec<Json>,
    fields: Vec<(String, Json)>,
    text: Option<Seq<char>>,
)
    ensures
        value is Null ==> value@ == JsonView::Null,
        value matches Json::Bool(b) ==> value@ == JsonView::Bool(b),
        value matches Json::PosInt(n) ==> value@ == JsonView::PosInt(n),
        value matches Json::NegInt(n) ==> value@ == JsonView::NegInt(n),
        value matches Json::Float(n) ==> value@ == JsonView::Float(n),
        value matches Json::Text(s) ==> value@ == JsonView::Text(s@),
        Json::List(elements)@ == JsonView::List(elements@.map_values(|e: Json| e@)),
        Json::Object(fields)@ == JsonView::Object(
            fields@.map_values(|f: (String, Json)| (f.0@, f.1@)),
        ),
        json_views(elements@) == elements@.map_values(|e: Json| e@),
        optional(Some(value)) == Some(value@),
        optional(None) is None,
        text_or_null(text) == (match text {
            Some(s) => JsonView::Text(s),
            None => JsonView::Null,
        }),
{
    assert(Json::List(elements).tree()->List_0 =~= elements@.map_values(|e: Json| e@));
    assert(Json::Object(fields).tree()->Object_0 =~= fields@.map_values(
        |f: (String, Json)| (f.0@, f.1@),
    ));
    assert(json_views(elements@) =~= elements@.map_values(|e: Json| e@));
}

/// Every response carries the version of the protocol and the id of its request, and either the
/// result or the error, with its code and message.
pub proof fn law_responses_carry_a_result_or_an_error(
    result: JsonView,
    code: i64,
    message: Seq<char>,
    text: Seq<char>,
    id: Option<JsonView>,
)
    ensures
        success(result, id) == (ResponseView {
            jsonrpc: "2.0"@,
            result: Some(result),
            error: None,
            id,
        }),
        failure(code, message, id) == (ResponseView {
            jsonrpc: "2.0"@,
            result: None,
            error: Some(
                JsonView::Object(
                    seq![
                        ("code"@, JsonView::NegInt(code)),
                        ("message"@, JsonView::Text(message)),
                    ],
                ),
            ),
            id,
        }),
        call_response(Ok(text), id).result == Some(
            JsonView::Object(
                seq![
                    (
                        "content"@,
                        JsonView::List(
                            seq![
                                JsonView::Object(
                                    seq![
                                        ("type"@, JsonView::Text("text"@)),
                                        ("text"@, JsonView::Text(text)),
                                    ],
                                ),
                            ],
                        ),
                    ),
                ],
            ),
        ),
        call_response(Ok(text), id) == success(call_response(Ok(text), id).result->0, id),
        call_response(Err(message), id) == failure((-32603) as i64, message, id),
        NOT_FOUND == -32601,
        INTERNAL_ERROR == -32603,
{
    assert(failure(code, message, id).error->0->Object_0 =~= seq![
        ("code"@, JsonView::NegInt(code)),
        ("message"@, JsonView::Text(message)),
    ]);
    let block = seq![("type"@, JsonView::Text("text"@)), ("text"@, JsonView::Text(text))];
    let blocks = content_block(text)->Object_0[0].1->List_0;
    assert(blocks[0]->Object_0 =~= block);
    assert(blocks =~= seq![JsonView::Object(block)]);
    assert(content_block(text)->Object_0 =~= seq![("content"@, JsonView::List(blocks))]);
}

/// The server answers a request to begin with the version of the protocol, that it has tools, and
/// its name and version.
pub proof fn law_the_server_card()
    ensures
        server_card() == JsonView::Object(
            seq![
                ("protocolVersion"@, JsonView::Text("2024-11-05"@)),
                (
                    "capabilities"@,
                    JsonView::Object(seq![("tools"@, JsonView::Object(seq![]))]),
                ),
                (
                    "serverInfo"@,
                    JsonView::Object(
                        seq![
                            ("name"@, JsonView::Text("mcp-native-core"@)),
                            ("version"@, JsonView::Text("0.1.0"@)),
                        ],
                    ),
                ),
            ],
        ),
{
    let capabilities = server_card()->Object_0[1].1;
    let info = server_card()->Object_0[2].1;
    assert(capabilities->Object_0 =~= seq![("tools"@, JsonView::Object(seq![]))]);
    assert(info->Object_0 =~= seq![
        ("name"@, JsonView::Text("mcp-native-core"@)),
        ("version"@, JsonView::Text("0.1.0"@)),
    ]);
    assert(server_card()->Object_0 =~= seq![
        ("protocolVersion"@, JsonView::Text("2024-11-05"@)),
        ("capabilities"@, capabilities),
        ("serverInfo"@, info),
    ]);
}

/// Every tool is listed, by its name, its description and the schema of its arguments, in order.
pub proof fn law_every_tool_is_listed<T: McpTool>(tools: Seq<T>)
    ensures
        tool_list(tools) == JsonView::Object(
            seq![
                (
                    "tools"@,
                    JsonView::List(
                        tools.map_values(
                            |t: T|
                                JsonView::Object(
                                    seq![
                                        ("name"@, JsonView::Text(t.called())),
                                        ("description"@, JsonView::Text(t.described())),
                                        ("inputSchema"@, t.schema()),
                                    ],
                                ),
                        ),
                    ),
                ),
            ],
        ),
{
    let wanted = tools.map_values(
        |t: T|
            JsonView::Object(
                seq![
                    ("name"@, JsonView::Text(t.called())),
                    ("description"@, JsonView::Text(t.described())),
                    ("inputSchema"@, t.schema()),
                ],
            ),
    );
    let given = Seq::new(tools.len(), |i: int| listed(tools[i]));
    assert forall|i: int| 0 <= i < tools.len() implies #[trigger] given[i] == wanted[i] by {
        assert(listed(tools[i])->Object_0 =~= wanted[i]->Object_0);
    }
    assert(given =~= wanted);
    assert(tool_list(tools)->Object_0 =~= seq![("tools"@, JsonView::List(wanted))]);
}

/// The tool of a name is the first one that has it; there is none only if no tool has the name.
pub proof fn law_tools_are_found_by_name<T: McpTool>(tools: Seq<T>, name: Seq<char>)
    ensures
        match tool_called(tools, name) {
            Some(tool) => exists|i: int|
                0 <= i < tools.len() && #[trigger] tools[i] == tool && tool.called() == name
                    && forall|j: int| 0 <= j < i ==> (#[trigger] tools[j]).called() != name,
            None => forall|i: int| 0 <= i < tools.len() ==> (#[trigger] tools[i]).called() != name,
        },
    decreases tools.len(),
{
    if tools.len() > 0 && tools[0].called() == name {
        assert(tool_called(tools, name) == Some(tools[0]));
    } else if tools.len() > 0 {
        let rest = tools.drop_first();
        law_tools_are_found_by_name(rest, name);
        match tool_called(rest, name) {
            Some(tool) => {
                let i = choose|i: int|
                    0 <= i < rest.len() && #[trigger] rest[i] == tool && tool.called() == name
                        && forall|j: int| 0 <= j < i ==> (#[trigger] rest[j]).called() != name;
                assert(tools[i + 1] == tool);
                assert forall|j: int| 0 <= j < i + 1 implies (#[trigger] tools[j]).called()
                    != name by {
                    if j > 0 {
                        assert(rest[j - 1] == tools[j]);
                    }
                }
            },
            None => {
                assert forall|i: int| 0 <= i < tools.len() implies (#[trigger] tools[i]).called()
                    != name by {
                    if i > 0 {
                        assert(rest[i - 1] == tools[i]);
                    }
                }
            },
        }
    }
}

/// What comes of a request goes by its id and its method: one without an id is ignored, and each of
/// the three methods is answered in its way. A call names its tool and hands over its arguments, as
/// they stand.
pub proof fn law_requests_go_by_their_method<T: McpTool>(tools: Seq<T>, request: RequestView)
    ensures
        request.id is None ==> outcome_of(tools, request) is Ignored,
        request.id is Some && request.method == "initialize"@ ==> outcome_of(tools, request)
            == Outcome::<T>::Replied(success(server_card(), request.id)),
        request.id is Some && request.method == "tools/list"@ ==> outcome_of(tools, request)
            == Outcome::<T>::Replied(success(tool_list(tools), request.id)),
        request.id is Some && request.method == "tools/call"@ ==> ({
            let name = match request.params.get("name"@) {
                Some(JsonView::Text(name)) => name,
                _ => ""@,
            };
            let arguments = match request.params.get("arguments"@) {
                Some(arguments) => arguments,
                None => JsonView::Null,
            };
            &&& wanted_tool(request.params) == name
            &&& call_arguments(request.params) == arguments
            &&& outcome_of(tools, request) == match tool_called(tools, name) {
                Some(tool) => Outcome::Called(tool, arguments),
                None => Outcome::Replied(failure((-32601) as i64, "Tool not found"@, request.id)),
            }
        }),
        request.id is Some && request.method != "initialize"@ && request.method != "tools/list"@
            && request.method != "tools/call"@ ==> outcome_of(tools, request)
            == Outcome::<T>::Replied(failure((-32601) as i64, "Method Not Found"@, request.id)),
{
    reveal_strlit("initialize");
    reveal_strlit("tools/list");
    reveal_strlit("tools/call");
    assert("initialize"@[0] != "tools/list"@[0] && "initialize"@[0] != "tools/call"@[0]);
    assert("tools/list"@[6] != "tools/call"@[6]);
}

/// The schemas of arguments, written out.
pub proof fn law_schemas(
    kind: Seq<char>,
    description: Seq<char>,
    properties: JsonView,
    required: Seq<Seq<char>>,
)
    ensures
        property_view(kind, description) == JsonView::Object(
            seq![
                ("type"@, JsonView::Text(kind)),
                ("description"@, JsonView::Text(description)),
            ],
        ),
        strings_property_view(description) == JsonView::Object(
            seq![
                ("type"@, JsonView::Text("array"@)),
                (
                    "items"@,
                    JsonView::Object(seq![("type"@, JsonView::Text("string"@))]),
                ),
                ("description"@, JsonView::Text(description)),
            ],
        ),
        schema_view(properties, required) == JsonView::Object(
            seq![
                ("type"@, JsonView::Text("object"@)),
                ("properties"@, properties),
                (
                    "required"@,
                    JsonView::List(required.map_values(|s: Seq<char>| JsonView::Text(s))),
                ),
            ],
        ),
{
    assert(property_view(kind, description)->Object_0 =~= seq![
        ("type"@, JsonView::Text(kind)),
        ("description"@, JsonView::Text(description)),
    ]);
    let items = strings_property_view(description)->Object_0[1].1;
    assert(items->Object_0 =~= seq![("type"@, JsonView::Text("string"@))]);
    assert(strings_property_view(description)->Object_0 =~= seq![
        ("type"@, JsonView::Text("array"@)),
        ("items"@, items),
        ("description"@, JsonView::Text(description)),
    ]);
    let names = schema_view(properties, required)->Object_0[2].1;
    assert(names->List_0 =~= required.map_values(|s: Seq<char>| JsonView::Text(s)));
    assert(schema_view(properties, required)->Object_0 =~= seq![
        ("type"@, JsonView::Text("object"@)),
        ("properties"@, properties),
        ("required"@, names),
    ]);
}

/// A tool takes the place of the first one of its name, and goes behind all the others if there is
/// none.
pub proof fn law_tools_take_the_place_of_their_name<T: McpTool>(tools: Seq<T>, tool: T, i: int)
    ensures
        0 <= i < tools.len() && tools[i].called() == tool.called() && (forall|j: int|
            0 <= j < i ==> (#[trigger] tools[j]).called() != tool.called()) ==> with_tool(
            tools,
            tool,
        ) == tools.update(i, tool),
        (forall|j: int|
            0 <= j < tools.len() ==> (#[trigger] tools[j]).called() != tool.called())
            ==> with_tool(tools, tool) == tools.push(tool),
    decreases tools.len(),
{
    if tools.len() == 0 {
        assert(with_tool(tools, tool) =~= tools.push(tool));
    } else {
        let rest = tools.drop_first();
        law_tools_take_the_place_of_their_name(rest, tool, i - 1);
        if forall|j: int| 0 <= j < tools.len() ==> (#[trigger] tools[j]).called() != tool.called() {
            assert forall|j: int| 0 <= j < rest.len() implies (#[trigger] rest[j]).called()
                != tool.called() by {
                assert(rest[j] == tools[j + 1]);
            }
            assert(tools[0].called() != tool.called());
            assert(with_tool(tools, tool) =~= tools.push(tool));
        }
        if 0 <= i < tools.len() && tools[i].called() == tool.called() && (forall|j: int|
            0 <= j < i ==> (#[trigger] tools[j]).called() != tool.called()) {
            if i == 0 {
                assert(with_tool(tools, tool) =~= tools.update(0, tool));
            } else {
                assert(tools[0].called() != tool.called());
                assert(rest[i - 1] == tools[i]);
                assert forall|j: int| 0 <= j < i - 1 implies (#[trigger] rest[j]).called()
                    != tool.called() by {
                    assert(rest[j] == tools[j + 1]);
                }
                assert(with_tool(tools, tool) =~= tools.update(i, tool));
            }
        }
    }
}

/// The tools go by these names and descriptions, and ask for these arguments.
pub proof fn law_what_the_tools_ask_for(
    search: FastSearchTool,
    structure: ParseStructureTool,
    semantic: SemanticSearchTool,
)
    ensures
        search.called() == "fast_search"@,
        structure.called() == "parse_structure"@,
        semantic.called() == "semantic_search"@,
        search.described()
            == "Scans workspace files using zero-copy memory mapping and multi-threaded regex compilation."@,
        structure.described()
            == "Extracts structural definitions (classes, functions, methods) from a file to optimize token usage."@,
        semantic.described()
            == "Finds code conceptually related to a natural-language query using local sentence embeddings, even when exact keywords don't match. Complements fast_search's exact/regex matching; slower per-call (embeds every indexed file once) but far better at 'find the code that handles X' when you don't know the exact identifiers."@,
        search.schema() == schema_view(
            JsonView::Object(
                seq![
                    (
                        "root_dir"@,
                        property_view("string"@, "The target codebase absolute directory path"@),
                    ),
                    ("query"@, property_view("string"@, "Regex matching pattern string"@)),
                    (
                        "extensions"@,
                        strings_property_view("Optional filters, e.g. ['rs', 'cs', 'py']"@),
                    ),
                    (
                        "backend"@,
                        property_view("string"@, "Search backend to use, e.g. 'regex' (default)"@),
                    ),
                ],
            ),
            seq!["root_dir"@, "query"@],
        ),
        structure.schema() == schema_view(
            JsonView::Object(
                seq![
                    (
                        "file_path"@,
                        property_view("string"@, "Absolute path to the target source code file"@),
                    ),
                ],
            ),
            seq!["file_path"@],
        ),
        semantic.schema() == schema_view(
            JsonView::Object(
                seq![
                    (
                        "root_dir"@,
                        property_view("string"@, "The target codebase absolute directory path"@),
                    ),
                    (
                        "query"@,
                        property_view(
                            "string"@,
                            "Natural-language description of the code you're looking for"@,
                        ),
                    ),
                    (
                        "top_k"@,
                        property_view(
                            "integer"@,
                            "Maximum number of results to return (default 10)"@,
                        ),
                    ),
                    (
                        "extensions"@,
                        strings_property_view("Optional filters, e.g. ['rs', 'cs', 'py']"@),
                    ),
                ],
            ),
            seq!["root_dir"@, "query"@],
        ),
{
    let a = JsonView::empty().with(
        "root_dir"@,
        property_view("string"@, "The target codebase absolute directory path"@),
    ).with("query"@, property_view("string"@, "Regex matching pattern string"@)).with(
        "extensions"@,
        strings_property_view("Optional filters, e.g. ['rs', 'cs', 'py']"@),
    ).with(
        "backend"@,
        property_view("string"@, "Search backend to use, e.g. 'regex' (default)"@),
    );
    assert(a->Object_0 =~= seq![
        ("root_dir"@, property_view("string"@, "The target codebase absolute directory path"@)),
        ("query"@, property_view("string"@, "Regex matching pattern string"@)),
        ("extensions"@, strings_property_view("Optional filters, e.g. ['rs', 'cs', 'py']"@)),
        ("backend"@, property_view("string"@, "Search backend to use, e.g. 'regex' (default)"@)),
    ]);
    let b = JsonView::empty().with(
        "file_path"@,
        property_view("string"@, "Absolute path to the target source code file"@),
    );
    assert(b->Object_0 =~= seq![
        ("file_path"@, property_view("string"@, "Absolute path to the target source code file"@)),
    ]);
    let c = JsonView::empty().with(
        "root_dir"@,
        property_view("string"@, "The target codebase absolute directory path"@),
    ).with(
        "query"@,
        property_view("string"@, "Natural-language description of the code you're looking for"@),
    ).with(
        "top_k"@,
        property_view("integer"@, "Maximum number of results to return (default 10)"@),
    ).with(
        "extensions"@,
        strings_property_view("Optional filters, e.g. ['rs', 'cs', 'py']"@),
    );
    assert(c->Object_0 =~= seq![
        ("root_dir"@, property_view("string"@, "The target codebase absolute directory path"@)),
        (
            "query"@,
            property_view(
                "string"@,
                "Natural-language description of the code you're looking for"@,
            ),
        ),
        ("top_k"@, property_view("integer"@, "Maximum number of results to return (default 10)"@)),
        ("extensions"@, strings_property_view("Optional filters, e.g. ['rs', 'cs', 'py']"@)),
    ]);
}

} // verus!
