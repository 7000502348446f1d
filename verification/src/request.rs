//! Requests of clients, and what they ask of Codex.
use crate::config;
use crate::config::Config;
use crate::error;
use crate::error::Reply;
use crate::protocol::{CodexRequest, CodexRequestView};
use crate::stream::Endpoint;
use crate::text;
use crate::transcript;
use crate::transcript::{Content, Message};
use serde_json::Value;
use vstd::prelude::*;
use vstd::string::*;

verus! {

/// A request for a chat completion. The fields after `stream` are accepted and have no effect.
#[derive(Debug, Clone)]
pub struct ChatRequest {
    pub model: Option<String>,
    pub messages: Vec<Message>,
    pub stream: bool,
    pub max_tokens: Option<u32>,
    pub user: Option<String>,
    pub stop: Option<Value>,
}

/// What a request for a response asks about.
#[derive(Debug)]
pub enum Input {
    /// What the user says.
    Text(String),
    /// A whole conversation.
    Messages(Vec<Message>),
}

/// A request for a response.
#[derive(Debug)]
pub struct ResponseRequest {
    pub model: Option<String>,
    pub input: Input,
    pub stream: bool,
}

/// The field that holds the conversation.
pub open spec fn conversation_field(endpoint: Endpoint) -> Seq<char> {
    match endpoint {
        Endpoint::Chat => "messages"@,
        Endpoint::Responses => "input"@,
    }
}

/// What a client is told who sends no message or too many.
pub open spec fn count_complaint(endpoint: Endpoint) -> Seq<char> {
    match endpoint {
        Endpoint::Chat => "messages count is outside the supported range"@,
        Endpoint::Responses => "input message count is outside the supported range"@,
    }
}

/// What a request asks of Codex, or the reply that turns it down. The model is looked at first, then
/// the number of messages, then the messages.
pub open spec fn prepared(
    endpoint: Endpoint,
    model: Option<Seq<char>>,
    messages: Seq<Message>,
    config: Config,
) -> Result<CodexRequestView, error::ReplyView> {
    match config::resolved(model, config.default_model@) {
        Err(reason) => Err(
            error::error_reply(
                error::NOT_FOUND,
                reason,
                "invalid_request_error"@,
                Some("model"@),
                Some("model_not_found"@),
            ),
        ),
        Ok(model) => if messages.len() == 0 || messages.len() > config.max_messages {
            Err(
                error::error_reply(
                    error::BAD_REQUEST,
                    count_complaint(endpoint),
                    "invalid_request_error"@,
                    Some(conversation_field(endpoint)),
                    None,
                ),
            )
        } else {
            match transcript::serialized(messages, config.max_prompt_bytes) {
                Err(failure) => Err(
                    error::error_reply(
                        error::BAD_REQUEST,
                        failure.message(),
                        "invalid_request_error"@,
                        Some(conversation_field(endpoint)),
                        None,
                    ),
                ),
                Ok(input) => Ok(
                    CodexRequestView { model, input, timeout_seconds: config.timeout_seconds },
                ),
            }
        },
    }
}

/// A prepared request or a reply, with what they say.
pub open spec fn preparation(result: Result<CodexRequest, Reply>) -> Result<
    CodexRequestView,
    error::ReplyView,
> {
    match result {
        Ok(request) => Ok(request@),
        Err(reply) => Err(reply@),
    }
}

/// What a request asks of Codex, or the reply that turns it down.
fn prepare(endpoint: Endpoint, model: &Option<String>, messages: &Vec<Message>, config: &Config) -> (
result: Result<CodexRequest, Reply>)
    ensures
        preparation(result) == prepared(endpoint, text::opt_view(*model), messages@, *config),
{
    let wanted: Option<&str> = match model {
        Some(model) => Some(model.as_str()),
        None => None,
    };
    let found: String = match config::resolve_model(wanted, config) {
        Ok(found) => found,
        Err(reason) => {
            return Err(
                error::error_response(
                    error::NOT_FOUND,
                    reason.as_str(),
                    "invalid_request_error",
                    Some("model"),
                    Some("model_not_found"),
                ),
            );
        },
    };
    let (field, complaint): (&'static str, &'static str) = match endpoint {
        Endpoint::Chat => ("messages", "messages count is outside the supported range"),
        Endpoint::Responses => ("input", "input message count is outside the supported range"),
    };
    if messages.len() == 0 || messages.len() > config.max_messages {
        return Err(
            error::error_response(
                error::BAD_REQUEST,
                complaint,
                "invalid_request_error",
                Some(field),
                None,
            ),
        );
    }
    match transcript::serialize_input(messages.as_slice(), config.max_prompt_bytes) {
        Ok(input) => Ok(
            CodexRequest { model: found, input, timeout_seconds: config.timeout_seconds },
        ),
        Err(failure) => {
            let message: String = failure.to_string();
            Err(
                error::error_response(
                    error::BAD_REQUEST,
                    message.as_str(),
                    "invalid_request_error",
                    Some(field),
                    None,
                ),
            )
        },
    }
}

/// What a request for a chat completion asks of Codex, or the reply that turns it down.
pub fn prepare_chat(request: &ChatRequest, config: &Config) -> (result: Result<CodexRequest, Reply>)
    ensures
        preparation(result) == prepared(
            Endpoint::Chat,
            text::opt_view(request.model),
            request.messages@,
            *config,
        ),
{
    prepare(Endpoint::Chat, &request.model, &request.messages, config)
}

/// The messages are the conversation that the input stands for: a bare text is one message of the
/// user.
pub open spec fn stands_for(input: Input, messages: Seq<Message>) -> bool {
    match input {
        Input::Text(text) => messages.len() == 1 && messages[0].role@ == "user"@ && messages[0].content
            == Content::Text(text),
        Input::Messages(list) => messages == list@,
    }
}

/// The conversation that an input stands for.
pub fn input_messages(input: Input) -> (messages: Vec<Message>)
    ensures
        stands_for(input, messages@),
{
    match input {
        Input::Text(text) => {
            let mut messages: Vec<Message> = Vec::new();
            messages.push(Message { role: "user".to_owned(), content: Content::Text(text) });
            messages
        },
        Input::Messages(messages) => messages,
    }
}

/// What a request for a response asks of Codex, or the reply that turns it down.
pub fn prepare_response(request: ResponseRequest, config: &Config) -> (result: Result<
    CodexRequest,
    Reply,
>)
    ensures
        forall|messages: Seq<Message>|
            stands_for(request.input, messages) ==> preparation(result) == #[trigger] prepared(
                Endpoint::Responses,
                text::opt_view(request.model),
                messages,
                *config,
            ),
        exists|messages: Seq<Message>| #[trigger] stands_for(request.input, messages),
{
    let ResponseRequest { model, input, stream } = request;
    let messages: Vec<Message> = input_messages(input);
    proof {
        assert forall|other: Seq<Message>| stands_for(input, other) implies #[trigger] prepared(
            Endpoint::Responses,
            text::opt_view(model),
            other,
            *config,
        ) == prepared(Endpoint::Responses, text::opt_view(model), messages@, *config) by {
            inputs_stand_for_one_conversation(input, other, messages@);
        }
    }
    prepare(Endpoint::Responses, &model, &messages, config)
}

/// An input stands for one conversation: its readings are serialized alike.
pub proof fn inputs_stand_for_one_conversation(input: Input, a: Seq<Message>, b: Seq<Message>)
    requires
        stands_for(input, a),
        stands_for(input, b),
    ensures
        a.len() == b.len(),
        transcript::conversation_fault(a) == transcript::conversation_fault(b),
        transcript::transcript(a) == transcript::transcript(b),
{
    match input {
        Input::Text(text) => {
            assert(a.drop_last() =~= Seq::<Message>::empty());
            assert(b.drop_last() =~= Seq::<Message>::empty());
            assert(transcript::message_items(a[0]) == transcript::message_items(b[0]));
            assert(transcript::message_fault(a[0]) == transcript::message_fault(b[0]));
            assert(a.last() == a[0] && b.last() == b[0]);
        },
        Input::Messages(list) => {},
    }
}

/// A request that is accepted asks for a model that the gateway offers, holds no more messages and
/// no more bytes than are allowed, and gets the time that the settings give.
pub proof fn accepted_requests_are_bounded(
    endpoint: Endpoint,
    model: Option<Seq<char>>,
    messages: Seq<Message>,
    config: Config,
)
    requires
        config.is_valid(),
        prepared(endpoint, model, messages, config) is Ok,
    ensures
        ({
            let request = prepared(endpoint, model, messages, config)->Ok_0;
            &&& config::is_supported(request.model)
            &&& 1 <= messages.len() <= config.max_messages
            &&& request.input == transcript::transcript(messages)
            &&& transcript::saturated(transcript::input_bytes(request.input))
                <= config.max_prompt_bytes
            &&& request.timeout_seconds == config.timeout_seconds
        }),
{
    config::only_offered_models_are_used(model, config);
}

/// A request that is turned down is told so with a client error in the common form, which names the
/// field at fault.
pub proof fn refusals_name_the_field(
    endpoint: Endpoint,
    model: Option<Seq<char>>,
    messages: Seq<Message>,
    config: Config,
)
    requires
        prepared(endpoint, model, messages, config) is Err,
    ensures
        ({
            let reply = prepared(endpoint, model, messages, config)->Err_0;
            ||| exists|reason: Seq<char>| #[trigger]
                error::error_reply(
                    error::NOT_FOUND,
                    reason,
                    "invalid_request_error"@,
                    Some("model"@),
                    Some("model_not_found"@),
                ) == reply
            ||| exists|reason: Seq<char>| #[trigger]
                error::error_reply(
                    error::BAD_REQUEST,
                    reason,
                    "invalid_request_error"@,
                    Some(conversation_field(endpoint)),
                    None,
                ) == reply
        }),
{
}

} // verus!
