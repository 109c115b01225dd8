//! The protocol: requests, responses, and the tools that requests call.

use vstd::prelude::*;

use crate::json::{json_views, Json, JsonView};
use crate::registry::left_open;
use crate::text::{same_text, trim, trimmed};

verus! {

/// A request, or a notification if it has no id.
pub struct JsonRpcRequest {
    pub jsonrpc: String,
    pub method: String,
    pub params: Json,
    pub id: Option<Json>,
}

/// What a `JsonRpcRequest` stands for.
pub struct RequestView {
    pub jsonrpc: Seq<char>,
    pub method: Seq<char>,
    pub params: JsonView,
    pub id: Option<JsonView>,
}

/// What an optional value stands for.
pub open spec fn optional(value: Option<Json>) -> Option<JsonView> {
    match value {
        Some(v) => Some(v@),
        None => None,
    }
}

impl View for JsonRpcRequest {
    type V = RequestView;

    open spec fn view(&self) -> RequestView {
        RequestView {
            jsonrpc: self.jsonrpc@,
            method: self.method@,
            params: self.params@,
            id: optional(self.id),
        }
    }
}

/// The response to a request.
pub struct JsonRpcResponse {
    pub jsonrpc: String,
    pub result: Option<Json>,
    pub error: Option<Json>,
    pub id: Option<Json>,
}

/// What a `JsonRpcResponse` stands for.
pub struct ResponseView {
    pub jsonrpc: Seq<char>,
    pub result: Option<JsonView>,
    pub error: Option<JsonView>,
    pub id: Option<JsonView>,
}

impl View for JsonRpcResponse {
    type V = ResponseView;

    open spec fn view(&self) -> ResponseView {
        ResponseView {
            jsonrpc: self.jsonrpc@,
            result: optional(self.result),
            error: optional(self.error),
            id: optional(self.id),
        }
    }
}

/// The code of the error that a method or tool is not known.
pub const NOT_FOUND: i64 = -32601;

/// The code of the error that a tool failed.
pub const INTERNAL_ERROR: i64 = -32603;

/// The response with a result.
pub open spec fn success(result: JsonView, id: Option<JsonView>) -> ResponseView {
    ResponseView { jsonrpc: "2.0"@, result: Some(result), error: None, id }
}

/// The response with an error.
pub open spec fn failure(code: i64, message: Seq<char>, id: Option<JsonView>) -> ResponseView {
    ResponseView {
        jsonrpc: "2.0"@,
        result: None,
        error: Some(
            JsonView::empty().with("code"@, JsonView::NegInt(code)).with(
                "message"@,
                JsonView::Text(message),
            ),
        ),
        id,
    }
}

/// The response with a result.
fn success_response(result: Json, id: Option<Json>) -> (r: JsonRpcResponse)
    ensures
        r@ == success(result@, optional(id)),
{
    JsonRpcResponse { jsonrpc: "2.0".to_string(), result: Some(result), error: None, id }
}

/// The response with an error.
fn failure_response(code: i64, message: &str, id: Option<Json>) -> (r: JsonRpcResponse)
    ensures
        r@ == failure(code, message@, optional(id)),
{
    let error = Json::empty().with("code", Json::NegInt(code)).with("message", Json::text(message));
    JsonRpcResponse { jsonrpc: "2.0".to_string(), result: None, error: Some(error), id }
}

/// What the server says of itself: the version of the protocol, that it has tools, and its name
/// and version.
pub open spec fn server_card() -> JsonView {
    let info = JsonView::empty().with("name"@, JsonView::Text("mcp-native-core"@)).with(
        "version"@,
        JsonView::Text("0.1.0"@),
    );
    JsonView::empty().with("protocolVersion"@, JsonView::Text("2024-11-05"@)).with(
        "capabilities"@,
        JsonView::empty().with("tools"@, JsonView::empty()),
    ).with("serverInfo"@, info)
}

/// Answers a request to begin.
pub fn handle_initialize(id: Option<Json>) -> (r: JsonRpcResponse)
    ensures
        r@ == success(server_card(), optional(id)),
{
    let capabilities = Json::empty().with("tools", Json::empty());
    let info = Json::empty().with("name", Json::text("mcp-native-core")).with(
        "version",
        Json::text("0.1.0"),
    );
    let card = Json::empty().with("protocolVersion", Json::text("2024-11-05")).with(
        "capabilities",
        capabilities,
    ).with("serverInfo", info);
    success_response(card, id)
}

/// Answers a request for a method that is not known.
pub fn handle_unknown_method(id: Option<Json>) -> (r: JsonRpcResponse)
    ensures
        r@ == failure(NOT_FOUND, "Method Not Found"@, optional(id)),
{
    failure_response(NOT_FOUND, "Method Not Found", id)
}

/// A tool, as far as it is listed and looked up.
///
/// An implementation says by the spec functions what its methods give. One that leaves them out
/// leaves that open, and its methods have to give the same for the same value and arguments each
/// time.
pub trait McpTool: Send + Sync {
    /// The name of the tool.
    open spec fn called(&self) -> Seq<char> {
        left_open(self, "tool: called"@)
    }

    /// What the tool is for.
    open spec fn described(&self) -> Seq<char> {
        left_open(self, "tool: described"@)
    }

    /// The schema of the arguments that the tool takes.
    open spec fn schema(&self) -> JsonView {
        left_open(self, "tool: schema"@)
    }

    /// The name that the tool is called by.
    fn name(&self) -> (r: &'static str)
        ensures
            r@ == self.called(),
    ;

    /// What the tool is for.
    fn description(&self) -> (r: &'static str)
        ensures
            r@ == self.described(),
    ;

    /// The schema of the arguments that the tool takes.
    fn input_schema(&self) -> (r: Json)
        ensures
            r@ == self.schema(),
    ;
}

/// The first of `tools` that is called `name`.
pub open spec fn tool_called<T: McpTool>(tools: Seq<T>, name: Seq<char>) -> Option<T>
    decreases tools.len(),
{
    if tools.len() == 0 {
        None
    } else if tools.first().called() == name {
        Some(tools.first())
    } else {
        tool_called(tools.drop_first(), name)
    }
}

/// `tools` with `tool` in place of the first one of its name, or behind them all if there is
/// none.
pub open spec fn with_tool<T: McpTool>(tools: Seq<T>, tool: T) -> Seq<T>
    decreases tools.len(),
{
    if tools.len() == 0 {
        seq![tool]
    } else if tools.first().called() == tool.called() {
        seq![tool] + tools.drop_first()
    } else {
        seq![tools.first()] + with_tool(tools.drop_first(), tool)
    }
}

/// Whether no two of `tools` have the same name.
pub open spec fn names_differ<T: McpTool>(tools: Seq<T>) -> bool {
    forall|i: int, j: int|
        0 <= i < j < tools.len() ==> (#[trigger] tools[i]).called() != (#[trigger] tools[j]).called()
}

/// The tools of the server. No two have the same name.
pub struct McpServerState<T: McpTool> {
    tools: Vec<T>,
}

impl<T: McpTool> View for McpServerState<T> {
    type V = Seq<T>;

    closed spec fn view(&self) -> Seq<T> {
        self.tools@
    }
}

impl<T: McpTool> McpServerState<T> {
    /// The server without tools.
    pub fn new() -> (r: Self)
        ensures
            r@ == Seq::<T>::empty(),
            names_differ(r@),
    {
        McpServerState { tools: Vec::new() }
    }

    /// Adds `tool`, in place of the one that has its name.
    pub fn register_tool(&mut self, tool: T)
        ensures
            final(self)@ == with_tool(old(self)@, tool),
            names_differ(old(self)@) ==> names_differ(final(self)@),
    {
        proof {
            if names_differ(self.tools@) {
                law_tool_names_differ(self.tools@, tool);
            }
        }
        let name = tool.name();
        let n: usize = self.tools.len();
        let mut i: usize = 0;
        proof {
            assert(self.tools@.take(0) + with_tool(self.tools@.skip(0), tool) =~= with_tool(
                self.tools@,
                tool,
            )) by {
                assert(self.tools@.skip(0) =~= self.tools@);
            }
        }
        while i < n
            invariant
                i <= n == self.tools@.len(),
                self.tools@ == old(self)@,
                name@ == tool.called(),
                names_differ(old(self)@) ==> names_differ(with_tool(old(self)@, tool)),
                self.tools@.take(i as int) + with_tool(self.tools@.skip(i as int), tool)
                    == with_tool(old(self)@, tool),
            decreases n - i,
        {
            let ghost rest = self.tools@.skip(i as int);
            assert(rest.first() == self.tools@[i as int]);
            assert(rest.drop_first() =~= self.tools@.skip(i + 1));
            let other = self.tools[i].name();
            if same_text(other, name) {
                let ghost before = self.tools@;
                self.tools.set(i, tool);
                assert(self.tools@ =~= before.take(i as int) + (seq![tool] + rest.drop_first()));
                return;
            }
            proof {
                let next = with_tool(rest.drop_first(), tool);
                assert(self.tools@.take(i as int) + (seq![rest.first()] + next)
                    =~= self.tools@.take(i + 1) + next);
            }
            i = i + 1;
        }
        let ghost before = self.tools@;
        self.tools.push(tool);
        assert(self.tools@ =~= before.take(n as int) + seq![tool]);
    }

    /// The tool called `name`.
    pub fn get(&self, name: &str) -> (r: Option<&T>)
        ensures
            match r {
                Some(tool) => tool_called(self@, name@) == Some(*tool),
                None => tool_called(self@, name@) is None,
            },
    {
        let n: usize = self.tools.len();
        let mut i: usize = 0;
        assert(self.tools@.skip(0) =~= self.tools@);
        while i < n
            invariant
                i <= n == self.tools@.len(),
                tool_called(self@, name@) == tool_called(self.tools@.skip(i as int), name@),
            decreases n - i,
        {
            let ghost rest = self.tools@.skip(i as int);
            assert(rest.first() == self.tools@[i as int]);
            assert(rest.drop_first() =~= self.tools@.skip(i + 1));
            let other = self.tools[i].name();
            if same_text(other, name) {
                return Some(&self.tools[i]);
            }
            i = i + 1;
        }
        None
    }
}

/// How a tool is listed.
pub open spec fn listed<T: McpTool>(tool: T) -> JsonView {
    JsonView::empty().with("name"@, JsonView::Text(tool.called())).with(
        "description"@,
        JsonView::Text(tool.described()),
    ).with("inputSchema"@, tool.schema())
}

/// The list of the tools.
pub open spec fn tool_list<T: McpTool>(tools: Seq<T>) -> JsonView {
    JsonView::empty().with(
        "tools"@,
        JsonView::List(Seq::new(tools.len(), |i: int| listed(tools[i]))),
    )
}

/// Answers a request for the list of the tools.
pub fn handle_list_tools<T: McpTool>(state: &McpServerState<T>, id: Option<Json>) -> (r:
    JsonRpcResponse)
    ensures
        r@ == success(tool_list(state@), optional(id)),
{
    let n: usize = state.tools.len();
    let mut list: Vec<Json> = Vec::new();
    let mut i: usize = 0;
    let ghost wanted = Seq::new(state@.len(), |i: int| listed(state@[i]));
    while i < n
        invariant
            i <= n == state.tools@.len(),
            wanted == Seq::new(state@.len(), |i: int| listed(state@[i])),
            json_views(list@) == wanted.take(i as int),
        decreases n - i,
    {
        let tool = &state.tools[i];
        let item = Json::empty().with("name", Json::text(tool.name())).with(
            "description",
            Json::text(tool.description()),
        ).with("inputSchema", tool.input_schema());
        let ghost before = list@;
        list.push(item);
        assert(json_views(list@) =~= json_views(before).push(item@));
        assert(item@ == listed(state@[i as int]));
        i = i + 1;
        assert(json_views(list@) =~= wanted.take(i as int));
    }
    assert(json_views(list@) =~= wanted);
    let tools = Json::list(list);
    success_response(Json::empty().with("tools", tools), id)
}

/// What is to be done about a request.
pub enum Dispatch<'a, T> {
    /// Nothing: it is a notification.
    Ignore,
    /// Send this response.
    Reply(JsonRpcResponse),
    /// Run this tool with these arguments, and send what `finish_call` makes of its outcome.
    Call(&'a T, Json, Option<Json>),
}

/// The name of the tool that a call asks for; empty where it names none.
pub open spec fn wanted_tool(params: JsonView) -> Seq<char> {
    match params.text_field("name"@) {
        Some(name) => name,
        None => ""@,
    }
}

/// The arguments of a call; null where it has none.
pub open spec fn call_arguments(params: JsonView) -> JsonView {
    match params.get("arguments"@) {
        Some(arguments) => arguments,
        None => JsonView::Null,
    }
}

/// Finds the tool that a call asks for, or answers that there is none.
pub fn handle_call_tool<'a, T: McpTool>(
    state: &'a McpServerState<T>,
    params: &Json,
    id: Option<Json>,
) -> (r: Dispatch<'a, T>)
    ensures
        match tool_called(state@, wanted_tool(params@)) {
            Some(tool) => r matches Dispatch::Call(t, arguments, i) && *t == tool && arguments@
                == call_arguments(params@) && i == id,
            None => r matches Dispatch::Reply(response) && response@ == failure(
                NOT_FOUND,
                "Tool not found"@,
                optional(id),
            ),
        },
{
    let found = match params.text_field("name") {
        Some(name) => state.get(name.as_str()),
        None => state.get(""),
    };
    match found {
        Some(tool) => {
            let arguments = match params.get("arguments") {
                Some(arguments) => arguments.copy(),
                None => Json::Null,
            };
            Dispatch::Call(tool, arguments, id)
        },
        None => Dispatch::Reply(failure_response(NOT_FOUND, "Tool not found", id)),
    }
}

/// The result of a call: one block of text.
pub open spec fn content_block(text: Seq<char>) -> JsonView {
    let block = JsonView::empty().with("type"@, JsonView::Text("text"@)).with(
        "text"@,
        JsonView::Text(text),
    );
    JsonView::empty().with("content"@, JsonView::List(seq![block]))
}

/// The response to a call, given what the tool came to: the text of its result, or why it failed.
pub open spec fn call_response(
    outcome: Result<Seq<char>, Seq<char>>,
    id: Option<JsonView>,
) -> ResponseView {
    match outcome {
        Ok(text) => success(content_block(text), id),
        Err(message) => failure(INTERNAL_ERROR, message, id),
    }
}

/// Answers a call, given what the tool came to: the text of its result, or why it failed.
pub fn finish_call(outcome: Result<String, String>, id: Option<Json>) -> (r: JsonRpcResponse)
    ensures
        r@ == call_response(
            match outcome {
                Ok(text) => Ok(text@),
                Err(message) => Err(message@),
            },
            optional(id),
        ),
{
    match outcome {
        Ok(text) => {
            let block = Json::empty().with("type", Json::text("text")).with(
                "text",
                Json::text(text.as_str()),
            );
            let blocks: Vec<Json> = vec![block];
            assert(json_views(blocks@) =~= seq![block@]);
            success_response(Json::empty().with("content", Json::list(blocks)), id)
        },
        Err(message) => failure_response(INTERNAL_ERROR, message.as_str(), id),
    }
}

/// What comes of a request: no response, a response, or a call of a tool with arguments.
pub enum Outcome<T> {
    Ignored,
    Replied(ResponseView),
    Called(T, JsonView),
}

/// What is to be done about a request.
pub open spec fn outcome_of<T: McpTool>(tools: Seq<T>, request: RequestView) -> Outcome<T> {
    if request.id is None {
        Outcome::Ignored
    } else if request.method == "initialize"@ {
        Outcome::Replied(success(server_card(), request.id))
    } else if request.method == "tools/list"@ {
        Outcome::Replied(success(tool_list(tools), request.id))
    } else if request.method == "tools/call"@ {
        match tool_called(tools, wanted_tool(request.params)) {
            Some(tool) => Outcome::Called(tool, call_arguments(request.params)),
            None => Outcome::Replied(failure(NOT_FOUND, "Tool not found"@, request.id)),
        }
    } else {
        Outcome::Replied(failure(NOT_FOUND, "Method Not Found"@, request.id))
    }
}

/// Decides what is to be done about a request. One without an id is a notification, and is
/// ignored.
pub fn dispatch<'a, T: McpTool>(state: &'a McpServerState<T>, request: JsonRpcRequest) -> (r:
    Dispatch<'a, T>)
    ensures
        match outcome_of(state@, request@) {
            Outcome::Ignored => r is Ignore,
            Outcome::Replied(response) => r matches Dispatch::Reply(x) && x@ == response,
            Outcome::Called(tool, arguments) => r matches Dispatch::Call(t, a, i) && *t == tool
                && a@ == arguments && i == request.id,
        },
{
    let JsonRpcRequest { jsonrpc: _, method, params, id } = request;
    if id.is_none() {
        return Dispatch::Ignore;
    }
    let method = method.as_str();
    if same_text(method, "initialize") {
        Dispatch::Reply(handle_initialize(id))
    } else if same_text(method, "tools/list") {
        Dispatch::Reply(handle_list_tools(state, id))
    } else if same_text(method, "tools/call") {
        handle_call_tool(state, &params, id)
    } else {
        Dispatch::Reply(handle_unknown_method(id))
    }
}

/// The request on a line of input: the line without the white space around it. A line of white
/// space alone holds none.
pub fn request_text(line: &str) -> (r: Option<String>)
    ensures
        match r {
            Some(text) => text@ == trimmed(line@) && text@.len() > 0,
            None => trimmed(line@).len() == 0,
        },
{
    let text = trim(line);
    if text.as_str().as_bytes().len() == 0 {
        None
    } else {
        Some(text)
    }
}

/// Whether a response answers the request with this id: it carries the id, and either a result or
/// an error.
pub open spec fn answers(response: ResponseView, id: Option<JsonView>) -> bool {
    &&& response.jsonrpc == "2.0"@
    &&& response.id == id
    &&& response.result is Some <==> response.error is None
}

/// A notification is never answered, and a request always is: with a response of its own, or,
/// once its tool has come to an end, with one for whatever came of it.
pub proof fn law_requests_are_answered<T: McpTool>(
    tools: Seq<T>,
    request: RequestView,
    outcome: Result<Seq<char>, Seq<char>>,
)
    ensures
        request.id is None <==> outcome_of(tools, request) is Ignored,
        outcome_of(tools, request) matches Outcome::Replied(response) ==> answers(
            response,
            request.id,
        ),
        answers(call_response(outcome, request.id), request.id),
{
}

/// A tool that has been added is found by its name, and the tools of other names stay as they
/// were.
pub proof fn law_last_registered_tool_is_found<T: McpTool>(tools: Seq<T>, tool: T, name: Seq<char>)
    ensures
        tool_called(with_tool(tools, tool), tool.called()) == Some(tool),
        name != tool.called() ==> tool_called(with_tool(tools, tool), name) == tool_called(
            tools,
            name,
        ),
    decreases tools.len(),
{
    let all = with_tool(tools, tool);
    reveal_with_fuel(tool_called, 2);
    if tools.len() == 0 {
        assert(all.drop_first() =~= Seq::<T>::empty());
    } else if tools.first().called() == tool.called() {
        assert(all.drop_first() =~= tools.drop_first());
    } else {
        law_last_registered_tool_is_found(tools.drop_first(), tool, name);
        assert(all.drop_first() =~= with_tool(tools.drop_first(), tool));
    }
}

/// No two tools of the server have the same name, so that each is listed once and can be called.
pub proof fn law_tool_names_differ<T: McpTool>(tools: Seq<T>, tool: T)
    requires
        names_differ(tools),
    ensures
        names_differ(with_tool(tools, tool)),
        forall|i: int|
            0 <= i < tools.len() ==> tool_called(tools, (#[trigger] tools[i]).called()) == Some(
                tools[i],
            ),
    decreases tools.len(),
{
    if tools.len() > 0 {
        let rest = tools.drop_first();
        assert forall|i: int, j: int| 0 <= i < j < rest.len() implies (#[trigger] rest[i]).called()
            != (#[trigger] rest[j]).called() by {
            assert(rest[i] == tools[i + 1] && rest[j] == tools[j + 1]);
        }
        law_tool_names_differ(rest, tool);
        assert forall|i: int| 0 <= i < tools.len() implies tool_called(
            tools,
            (#[trigger] tools[i]).called(),
        ) == Some(tools[i]) by {
            if i > 0 {
                assert(rest[i - 1] == tools[i]);
            }
        }
        let all = with_tool(tools, tool);
        lemma_with_tool_names(rest, tool);
        assert forall|i: int, j: int| 0 <= i < j < all.len() implies (#[trigger] all[i]).called()
            != (#[trigger] all[j]).called() by {
            if tools.first().called() == tool.called() {
                assert(all[j] == tools[j]);
                assert(i > 0 ==> all[i] == tools[i]);
            } else {
                let more = with_tool(rest, tool);
                assert(all[j] == more[j - 1]);
                assert(i > 0 ==> all[i] == more[i - 1]);
            }
        }
    }
}

/// Adding a tool adds no name but its own.
proof fn lemma_with_tool_names<T: McpTool>(tools: Seq<T>, tool: T)
    ensures
        forall|j: int|
            0 <= j < with_tool(tools, tool).len() ==> (#[trigger] with_tool(tools, tool)[j]).called()
                == tool.called() || exists|k: int|
                0 <= k < tools.len() && (#[trigger] tools[k]).called() == with_tool(
                    tools,
                    tool,
                )[j].called(),
    decreases tools.len(),
{
    if tools.len() > 0 {
        let rest = tools.drop_first();
        lemma_with_tool_names(rest, tool);
        let all = with_tool(tools, tool);
        assert forall|j: int| 0 <= j < all.len() implies (#[trigger] all[j]).called()
            == tool.called() || exists|k: int|
            0 <= k < tools.len() && (#[trigger] tools[k]).called() == all[j].called() by {
            if tools.first().called() == tool.called() {
                if j > 0 {
                    assert(all[j] == tools[j]);
                }
            } else if j == 0 {
                assert(all[0] == tools[0]);
            } else {
                let more = with_tool(rest, tool);
                assert(all[j] == more[j - 1]);
                if more[j - 1].called() != tool.called() {
                    let k = choose|k: int|
                        0 <= k < rest.len() && (#[trigger] rest[k]).called() == more[j
                            - 1].called();
                    assert(tools[k + 1] == rest[k]);
                }
            }
        }
    }
}

} // verus!
