//! What the gateway and a `codex app-server` child say to each other, one JSON document per line.
use crate::error::{GatewayError, GatewayErrorView};
use crate::json;
use crate::json::{JsonTree, Members};
use crate::text;
use crate::transcript;
use crate::transcript::{CodexInput, CodexInputView};
use serde_json::Value;
use vstd::prelude::*;
use vstd::string::*;

verus! {

/// The version that the gateway gives of itself.
pub const VERSION: &'static str = "0.1.0";

/// The id of the request that opens a connection.
pub const INITIALIZE_ID: u64 = 1;

/// What a run reports while it goes on.
#[derive(Debug)]
pub enum CodexEvent {
    TextDelta(String),
    Completed,
    Usage { input_tokens: Option<u64>, output_tokens: Option<u64> },
    Failed(String),
}

/// A [`CodexEvent`] with its text as characters.
pub enum CodexEventView {
    TextDelta(Seq<char>),
    Completed,
    Usage { input_tokens: Option<u64>, output_tokens: Option<u64> },
    Failed(Seq<char>),
}

impl View for CodexEvent {
    type V = CodexEventView;

    open spec fn view(&self) -> CodexEventView {
        match self {
            CodexEvent::TextDelta(delta) => CodexEventView::TextDelta(delta@),
            CodexEvent::Completed => CodexEventView::Completed,
            CodexEvent::Usage { input_tokens, output_tokens } => CodexEventView::Usage {
                input_tokens: *input_tokens,
                output_tokens: *output_tokens,
            },
            CodexEvent::Failed(message) => CodexEventView::Failed(message@),
        }
    }
}

impl Clone for CodexEvent {
    fn clone(&self) -> (copy: Self)
        ensures
            copy@ == self@,
    {
        match self {
            CodexEvent::TextDelta(delta) => CodexEvent::TextDelta(delta.clone()),
            CodexEvent::Completed => CodexEvent::Completed,
            CodexEvent::Usage { input_tokens, output_tokens } => CodexEvent::Usage {
                input_tokens: *input_tokens,
                output_tokens: *output_tokens,
            },
            CodexEvent::Failed(message) => CodexEvent::Failed(message.clone()),
        }
    }
}

/// The events of a list, with their texts as characters.
pub open spec fn event_views(events: Seq<CodexEvent>) -> Seq<CodexEventView> {
    events.map_values(|event: CodexEvent| event@)
}

/// What a run is asked to do, and how many seconds it may take.
#[derive(Debug, Clone)]
pub struct CodexRequest {
    pub model: String,
    pub input: Vec<CodexInput>,
    pub timeout_seconds: u64,
}

/// A [`CodexRequest`] with its texts as characters.
pub struct CodexRequestView {
    pub model: Seq<char>,
    pub input: Seq<CodexInputView>,
    pub timeout_seconds: u64,
}

impl View for CodexRequest {
    type V = CodexRequestView;

    open spec fn view(&self) -> CodexRequestView {
        CodexRequestView {
            model: self.model@,
            input: transcript::input_views(self.input@),
            timeout_seconds: self.timeout_seconds,
        }
    }
}

/// A request to a child: its method, its id and its parameters.
pub open spec fn request_tree(method: Seq<char>, id: u64, params: JsonTree) -> JsonTree {
    JsonTree::Object(
        map![
            "method"@ => JsonTree::Text(method),
            "id"@ => JsonTree::Natural(id),
            "params"@ => params,
        ],
    )
}

/// A request to a child.
fn request(method: &str, id: u64, params: Value) -> (value: Value)
    ensures
        json::value_tree(value) == request_tree(method@, id, json::value_tree(params)),
{
    Members::new().with("method", json::text(method)).with("id", json::natural(id)).with(
        "params",
        params,
    ).build()
}

/// The request that opens a connection.
pub open spec fn initialize_tree() -> JsonTree {
    request_tree(
        "initialize"@,
        INITIALIZE_ID,
        JsonTree::Object(
            map![
                "clientInfo"@ => JsonTree::Object(
                    map![
                        "name"@ => JsonTree::Text("codex-openai-gateway"@),
                        "title"@ => JsonTree::Text("Codex OpenAI Gateway"@),
                        "version"@ => JsonTree::Text(VERSION@),
                    ],
                ),
            ],
        ),
    )
}

/// The request that opens a connection.
pub fn initialize() -> (value: Value)
    ensures
        json::value_tree(value) == initialize_tree(),
{
    let info: Value = Members::new().with("name", json::text("codex-openai-gateway")).with(
        "title",
        json::text("Codex OpenAI Gateway"),
    ).with("version", json::text(VERSION)).build();
    request("initialize", INITIALIZE_ID, Members::new().with("clientInfo", info).build())
}

/// The notification that ends the handshake.
pub open spec fn initialized_tree() -> JsonTree {
    JsonTree::Object(
        map![
            "method"@ => JsonTree::Text("initialized"@),
            "params"@ => JsonTree::Object(Map::empty()),
        ],
    )
}

/// The notification that ends the handshake.
pub fn initialized() -> (value: Value)
    ensures
        json::value_tree(value) == initialized_tree(),
{
    Members::new().with("method", json::text("initialized")).with(
        "params",
        Members::new().build(),
    ).build()
}

/// The child accepted the request that opens a connection.
pub open spec fn accepts(response: JsonTree) -> bool {
    json::member(Some(response), "error"@) is None && json::member(Some(response), "result"@) is Some
}

/// Whether the child accepted the request that opens a connection.
pub fn check_response(response: &Value) -> (checked: Result<(), GatewayError>)
    ensures
        accepts(json::value_tree(*response)) ==> checked is Ok,
        !accepts(json::value_tree(*response)) ==> (checked matches Err(error) && error@
            == GatewayErrorView::Backend("app-server initialization failed"@)),
{
    if json::get(Some(response), "error").is_some() || json::get(Some(response), "result").is_none() {
        return Err(GatewayError::Backend("app-server initialization failed".to_owned()));
    }
    Ok(())
}

/// What the first line of a child comes to.
pub open spec fn handshake(line: Seq<char>) -> Result<(), GatewayErrorView> {
    match json::json_parse(line) {
        None => Err(GatewayErrorView::Backend("invalid initialization response"@)),
        Some(response) => if accepts(response) {
            Ok(())
        } else {
            Err(GatewayErrorView::Backend("app-server initialization failed"@))
        },
    }
}

/// Whether the first line of a child accepts the request that opens a connection.
pub fn check_initialization(line: &str) -> (checked: Result<(), GatewayError>)
    ensures
        match checked {
            Ok(()) => handshake(line@) is Ok,
            Err(error) => handshake(line@) == Err::<(), GatewayErrorView>(error@),
        },
{
    match json::parse_text(line) {
        Ok(response) => check_response(&response),
        Err(_) => Err(GatewayError::Backend("invalid initialization response".to_owned())),
    }
}

/// Why a child gave no first line.
#[derive(Debug, Clone, Copy, PartialEq, Eq, Structural)]
pub enum HandshakeEnd {
    /// It took too long.
    TimedOut,
    /// It closed its output.
    Closed,
    /// Its output cannot be read.
    Unreadable,
}

/// The failure of a handshake without a first line.
pub fn lost_handshake(end: HandshakeEnd) -> (failure: GatewayError)
    ensures
        failure@ == (match end {
            HandshakeEnd::TimedOut => GatewayErrorView::Timeout,
            HandshakeEnd::Closed => GatewayErrorView::Unavailable,
            HandshakeEnd::Unreadable => GatewayErrorView::Unavailable,
        }),
{
    match end {
        HandshakeEnd::TimedOut => GatewayError::Timeout,
        HandshakeEnd::Closed => GatewayError::Unavailable,
        HandshakeEnd::Unreadable => GatewayError::Unavailable,
    }
}

/// The request for a fresh thread, which keeps nothing and may write nothing.
pub open spec fn thread_start_tree(id: u64, model: Seq<char>) -> JsonTree {
    request_tree(
        "thread/start"@,
        id,
        JsonTree::Object(
            map![
                "model"@ => JsonTree::Text(model),
                "ephemeral"@ => JsonTree::Bool(true),
                "sandbox"@ => JsonTree::Text("read-only"@),
            ],
        ),
    )
}

/// The request for a fresh thread. No setting of a client reaches the sandbox.
pub fn thread_start(id: u64, model: &str) -> (value: Value)
    ensures
        json::value_tree(value) == thread_start_tree(id, model@),
{
    request(
        "thread/start",
        id,
        Members::new().with("model", json::text(model)).with("ephemeral", json::boolean(true)).with(
            "sandbox",
            json::text("read-only"),
        ).build(),
    )
}

/// What a turn may touch.
pub open spec fn sandbox_policy() -> JsonTree {
    JsonTree::Object(
        map![
            "type"@ => JsonTree::Text("readOnly"@),
            "networkAccess"@ => JsonTree::Bool(false),
        ],
    )
}

/// The request for a turn.
pub open spec fn turn_start_tree(
    id: u64,
    thread_id: Seq<char>,
    model: Seq<char>,
    input: Seq<CodexInputView>,
) -> JsonTree {
    request_tree(
        "turn/start"@,
        id,
        JsonTree::Object(
            map![
                "threadId"@ => JsonTree::Text(thread_id),
                "model"@ => JsonTree::Text(model),
                "sandboxPolicy"@ => sandbox_policy(),
                "input"@ => transcript::input_tree(input),
            ],
        ),
    )
}

/// The request for a turn, which may read and may not reach the network.
pub fn turn_start(id: u64, thread_id: &str, model: &str, input: &Vec<CodexInput>) -> (value: Value)
    ensures
        json::value_tree(value) == turn_start_tree(
            id,
            thread_id@,
            model@,
            transcript::input_views(input@),
        ),
{
    let policy: Value = Members::new().with("type", json::text("readOnly")).with(
        "networkAccess",
        json::boolean(false),
    ).build();
    request(
        "turn/start",
        id,
        Members::new().with("threadId", json::text(thread_id)).with("model", json::text(model)).with(
            "sandboxPolicy",
            policy,
        ).with("input", transcript::input_value(input.as_slice())).build(),
    )
}

/// The request to stop a turn.
pub open spec fn interrupt_tree(id: u64, thread_id: Seq<char>, turn_id: Seq<char>) -> JsonTree {
    request_tree(
        "turn/interrupt"@,
        id,
        JsonTree::Object(
            map!["threadId"@ => JsonTree::Text(thread_id), "turnId"@ => JsonTree::Text(turn_id)],
        ),
    )
}

/// The request to stop a turn.
pub fn turn_interrupt(id: u64, thread_id: &str, turn_id: &str) -> (value: Value)
    ensures
        json::value_tree(value) == interrupt_tree(id, thread_id@, turn_id@),
{
    request(
        "turn/interrupt",
        id,
        Members::new().with("threadId", json::text(thread_id)).with(
            "turnId",
            json::text(turn_id),
        ).build(),
    )
}

/// The token counts of a turn.
#[derive(Debug, Clone, Copy)]
pub struct TokenUsage {
    pub input_tokens: Option<u64>,
    pub output_tokens: Option<u64>,
}

/// What a line of a child says, as far as a run depends on it.
#[derive(Debug)]
pub struct ServerMessage {
    /// The id of the request that this answers.
    pub id: Option<u64>,
    /// The answer reports an error.
    pub has_error: bool,
    /// The thread that the answer names.
    pub new_thread_id: Option<String>,
    /// The turn that the answer names.
    pub new_turn_id: Option<String>,
    /// The kind of notification.
    pub method: Option<String>,
    /// The thread that the notification is about.
    pub thread_id: Option<String>,
    pub delta: Option<String>,
    pub usage: Option<TokenUsage>,
    /// How the turn ended.
    pub status: Option<String>,
    /// Why the turn failed.
    pub error_message: Option<String>,
}

/// A [`ServerMessage`] with its texts as characters.
pub struct ServerMessageView {
    pub id: Option<u64>,
    pub has_error: bool,
    pub new_thread_id: Option<Seq<char>>,
    pub new_turn_id: Option<Seq<char>>,
    pub method: Option<Seq<char>>,
    pub thread_id: Option<Seq<char>>,
    pub delta: Option<Seq<char>>,
    pub usage: Option<TokenUsage>,
    pub status: Option<Seq<char>>,
    pub error_message: Option<Seq<char>>,
}

impl View for ServerMessage {
    type V = ServerMessageView;

    open spec fn view(&self) -> ServerMessageView {
        ServerMessageView {
            id: self.id,
            has_error: self.has_error,
            new_thread_id: text::opt_view(self.new_thread_id),
            new_turn_id: text::opt_view(self.new_turn_id),
            method: text::opt_view(self.method),
            thread_id: text::opt_view(self.thread_id),
            delta: text::opt_view(self.delta),
            usage: self.usage,
            status: text::opt_view(self.status),
            error_message: text::opt_view(self.error_message),
        }
    }
}

/// The token counts in the `usage` member of a notification.
pub open spec fn usage_of(usage: Option<JsonTree>) -> Option<TokenUsage> {
    match usage {
        Some(_) => Some(
            TokenUsage {
                input_tokens: json::natural_of(json::member(usage, "inputTokens"@)),
                output_tokens: json::natural_of(json::member(usage, "outputTokens"@)),
            },
        ),
        None => None,
    }
}

/// What a line of a child says.
pub open spec fn message_of(line: JsonTree) -> ServerMessageView {
    let result = json::member(Some(line), "result"@);
    let params = json::member(Some(line), "params"@);
    let turn = json::member(params, "turn"@);
    ServerMessageView {
        id: json::natural_of(json::member(Some(line), "id"@)),
        has_error: json::member(Some(line), "error"@) is Some,
        new_thread_id: json::text_of(json::member(json::member(result, "thread"@), "id"@)),
        new_turn_id: json::text_of(json::member(json::member(result, "turn"@), "id"@)),
        method: json::text_of(json::member(Some(line), "method"@)),
        thread_id: json::text_of(json::member(params, "threadId"@)),
        delta: json::text_of(json::member(params, "delta"@)),
        usage: usage_of(json::member(params, "usage"@)),
        status: json::text_of(json::member(turn, "status"@)),
        error_message: json::text_of(json::member(json::member(turn, "error"@), "message"@)),
    }
}

impl ServerMessage {
    /// What a line of a child says.
    pub fn read(line: &Value) -> (message: ServerMessage)
        ensures
            message@ == message_of(json::value_tree(*line)),
    {
        let result: Option<&Value> = json::get(Some(line), "result");
        let params: Option<&Value> = json::get(Some(line), "params");
        let turn: Option<&Value> = json::get(params, "turn");
        let usage: Option<&Value> = json::get(params, "usage");
        ServerMessage {
            id: json::get_natural(json::get(Some(line), "id")),
            has_error: json::get(Some(line), "error").is_some(),
            new_thread_id: json::get_text(json::get(json::get(result, "thread"), "id")),
            new_turn_id: json::get_text(json::get(json::get(result, "turn"), "id")),
            method: json::get_text(json::get(Some(line), "method")),
            thread_id: json::get_text(json::get(params, "threadId")),
            delta: json::get_text(json::get(params, "delta")),
            usage: if usage.is_some() {
                Some(
                    TokenUsage {
                        input_tokens: json::get_natural(json::get(usage, "inputTokens")),
                        output_tokens: json::get_natural(json::get(usage, "outputTokens")),
                    },
                )
            } else {
                None
            },
            status: json::get_text(json::get(turn, "status")),
            error_message: json::get_text(json::get(json::get(turn, "error"), "message")),
        }
    }
}

/// Every thread is ephemeral and may write nothing, and every turn may read alone and may not
/// reach the network, whatever the client asked for. Nothing else is set: neither a working
/// directory nor an approval policy.
pub proof fn requests_never_widen_the_sandbox(
    id: u64,
    thread_id: Seq<char>,
    model: Seq<char>,
    input: Seq<CodexInputView>,
)
    ensures
        ({
            let params = json::member(Some(thread_start_tree(id, model)), "params"@);
            &&& json::member(params, "sandbox"@) == Some(JsonTree::Text("read-only"@))
            &&& json::member(params, "ephemeral"@) == Some(JsonTree::Bool(true))
            &&& params->Some_0->Object_0.dom() == set!["model"@, "ephemeral"@, "sandbox"@]
        }),
        ({
            let params = json::member(
                Some(turn_start_tree(id, thread_id, model, input)),
                "params"@,
            );
            let policy = json::member(params, "sandboxPolicy"@);
            &&& json::member(policy, "type"@) == Some(JsonTree::Text("readOnly"@))
            &&& json::member(policy, "networkAccess"@) == Some(JsonTree::Bool(false))
            &&& params->Some_0->Object_0.dom() == set![
                "threadId"@,
                "model"@,
                "sandboxPolicy"@,
                "input"@,
            ]
        }),
{
    reveal_strlit("method");
    reveal_strlit("id");
    reveal_strlit("params");
    reveal_strlit("model");
    reveal_strlit("ephemeral");
    reveal_strlit("sandbox");
    reveal_strlit("threadId");
    reveal_strlit("sandboxPolicy");
    reveal_strlit("input");
    reveal_strlit("type");
    reveal_strlit("networkAccess");
    assert("method"@.len() == 6 && "id"@.len() == 2 && "params"@.len() == 6);
    assert("model"@.len() == 5 && "ephemeral"@.len() == 9 && "sandbox"@.len() == 7);
    assert("threadId"@.len() == 8 && "sandboxPolicy"@.len() == 13 && "input"@.len() == 5);
    assert("type"@.len() == 4 && "networkAccess"@.len() == 13);
    assert("model"@[0] == 'm' && "input"@[0] == 'i');
    assert("method"@[0] == 'm' && "params"@[0] == 'p');
}

} // verus!
