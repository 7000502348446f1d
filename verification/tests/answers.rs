use codex_openai_gateway::completion::{Collector, Progress};
use codex_openai_gateway::error::{
    acquire, backend_error_response, backend_rejection_response, json_rejection_response,
    timeout_response, PermitRefusal,
};
use codex_openai_gateway::exchange::{CollectEvent, Exchange, Opening};
use codex_openai_gateway::identity::{completion_id, name_from, request_id, response_id};
use codex_openai_gateway::request::{prepare_chat, prepare_response};
use codex_openai_gateway::stream::{
    sse_error, Endpoint, EventStream, Frame, OpenStream, StreamEvent,
};
use codex_openai_gateway::{
    ChatRequest, CodexEvent, CodexInput, Config, Content, ContentPart, GatewayError, ImageDetail,
    ImageUrl, Input, Message, Reply, ResponseRequest,
};

fn config() -> Config {
    Config {
        default_model: "gpt-5.4-mini".into(),
        codex_binary: "codex".into(),
        codex_home: "/tmp".into(),
        runtime_dir: "/tmp".into(),
        exec_fallback: false,
        timeout_seconds: 1,
        max_concurrent_runs: 2,
        app_server_max_turns: 0,
        max_request_body_bytes: 1_048_576,
        max_prompt_bytes: 512,
        max_response_bytes: 512,
        max_messages: 128,
        server_host: "127.0.0.1".into(),
        server_port: 8989,
    }
}

fn chat_request(model: &str, messages: Vec<Message>) -> ChatRequest {
    ChatRequest {
        model: Some(model.to_string()),
        messages,
        stream: false,
        max_tokens: None,
        user: None,
        stop: None,
    }
}

fn said(text: &str) -> Vec<Message> {
    vec![Message {
        role: "user".into(),
        content: Content::Text(text.into()),
    }]
}

fn delta(text: &str) -> Option<Result<CodexEvent, GatewayError>> {
    Some(Ok(CodexEvent::TextDelta(text.to_string())))
}

fn completed() -> Option<Result<CodexEvent, GatewayError>> {
    Some(Ok(CodexEvent::Completed))
}

fn usage() -> Option<Result<CodexEvent, GatewayError>> {
    Some(Ok(CodexEvent::Usage {
        input_tokens: Some(1),
        output_tokens: None,
    }))
}

fn failed(text: &str) -> Option<Result<CodexEvent, GatewayError>> {
    Some(Ok(CodexEvent::Failed(text.to_string())))
}

/// The answer to a chat request whose run sends these arrivals.
fn answer_chat(
    request: &ChatRequest,
    arrivals: Vec<Option<Result<CodexEvent, GatewayError>>>,
) -> Reply {
    let prepared = match prepare_chat(request, &config()) {
        Ok(prepared) => prepared,
        Err(reply) => return reply,
    };
    let mut exchange = Exchange::new(
        Endpoint::Chat,
        request.stream,
        "chatcmpl_1".to_string(),
        prepared.model,
        config().max_response_bytes,
    );
    assert!(matches!(exchange.open(Ok(())), Opening::Collect));
    for arrival in arrivals {
        if let Some(answer) = exchange.accept(CollectEvent::Arrived(arrival), 7) {
            return answer.reply;
        }
    }
    panic!("no answer")
}

#[test]
fn fake_backend_serves_chat() {
    let reply = answer_chat(
        &chat_request("codex", said("hi")),
        vec![delta("hello"), completed()],
    );
    assert_eq!(reply.status, 200);
}

#[test]
fn unsupported_model_is_not_found() {
    let reply = answer_chat(&chat_request("nope", said("hi")), vec![]);
    assert_eq!(reply.status, 404);
    assert_eq!(
        reply.body.to_string(),
        r#"{"error":{"code":"model_not_found","message":"the requested model is not supported","param":"model","type":"invalid_request_error"}}"#
    );
}

#[test]
fn concurrency_is_rate_limited_instead_of_queued() {
    let reply = acquire::<u8>(Err(PermitRefusal::NoPermits)).unwrap_err();
    assert_eq!(reply.status, 429);
    assert_eq!(
        reply.body.to_string(),
        r#"{"error":{"code":null,"message":"too many concurrent requests","param":null,"type":"rate_limit_error"}}"#
    );
    let reply = acquire::<u8>(Err(PermitRefusal::Closed)).unwrap_err();
    assert_eq!(reply.status, 503);
    assert_eq!(reply.body["error"]["message"], "gateway is shutting down");
    assert_eq!(acquire(Ok(5u8)).unwrap(), 5);
}

#[test]
fn failed_turn_is_not_reported_as_a_completion() {
    let reply = answer_chat(
        &chat_request("codex", said("hi")),
        vec![failed("turn failed")],
    );
    assert_eq!(reply.status, 502);
    assert_eq!(
        reply.body["error"]["message"],
        "backend failure: turn failed"
    );
}

#[test]
fn public_routes_return_openai_shaped_payloads() {
    let reply = answer_chat(
        &chat_request("codex", said("hello")),
        vec![delta("hel"), usage(), delta("lo"), completed()],
    );
    assert_eq!(
        reply.body.to_string(),
        r#"{"choices":[{"finish_reason":"stop","index":0,"message":{"content":"hello","role":"assistant"}}],"created":7,"id":"chatcmpl_1","model":"gpt-5.4-mini","object":"chat.completion"}"#
    );

    let mut exchange = Exchange::new(
        Endpoint::Responses,
        false,
        "resp_1".to_string(),
        "gpt-5.5".to_string(),
        512,
    );
    assert!(exchange.accept(CollectEvent::Arrived(delta("hello")), 7).is_none());
    let answer = exchange.accept(CollectEvent::Arrived(completed()), 7).unwrap();
    assert!(!answer.cancel);
    assert_eq!(answer.reply.status, 200);
    assert_eq!(
        answer.reply.body.to_string(),
        r#"{"id":"resp_1","model":"gpt-5.5","object":"response","output":[{"content":[{"text":"hello","type":"output_text"}],"role":"assistant","type":"message"}],"status":"completed"}"#
    );
}

#[test]
fn public_routes_accept_openai_image_shapes() {
    let chat = prepare_chat(
        &chat_request(
            "codex",
            vec![Message {
                role: "user".into(),
                content: Content::Parts(vec![
                    ContentPart::Text {
                        text: "describe".into(),
                    },
                    ContentPart::ChatImage {
                        image_url: ImageUrl::Object {
                            url: "data:image/png;base64,AAAA".into(),
                            detail: Some(ImageDetail::High),
                        },
                    },
                ]),
            }],
        ),
        &config(),
    );
    assert!(chat.is_ok());

    let with_parts = |parts| ResponseRequest {
        model: Some("codex".into()),
        input: Input::Messages(vec![Message {
            role: "user".into(),
            content: Content::Parts(parts),
        }]),
        stream: false,
    };
    let image = prepare_response(
        with_parts(vec![
            ContentPart::Text {
                text: "describe".into(),
            },
            ContentPart::ResponseImage {
                image_url: Some("https://example.com/image.png".into()),
                file_id: None,
                detail: Some(ImageDetail::Auto),
            },
        ]),
        &config(),
    );
    assert!(image.is_ok());

    let file = prepare_response(
        with_parts(vec![ContentPart::File {
            file_id: None,
            file_url: Some("https://example.com/file.pdf".into()),
            file_data: None,
            filename: None,
        }]),
        &config(),
    );
    let reply = file.err().unwrap();
    assert_eq!(reply.status, 400);
    assert_eq!(reply.body["error"]["param"], "input");
}

fn text_of(frame: &Frame) -> String {
    match frame {
        Frame::Data(value) => value.to_string(),
        Frame::Done => "[DONE]".to_string(),
        Frame::KeepAlive => ": keepalive".to_string(),
    }
}

fn stream(endpoint: Endpoint, max_bytes: usize) -> EventStream {
    EventStream::new(endpoint, "x".to_string(), "m".to_string(), max_bytes)
}

fn step(stream: &mut EventStream, event: StreamEvent) -> Vec<String> {
    stream.accept(event).iter().map(text_of).collect()
}

#[test]
fn chat_stream_has_standard_chunks_and_done_marker() {
    let mut chat = stream(Endpoint::Chat, 512);
    assert_eq!(
        text_of(&chat.open()),
        r#"{"choices":[{"delta":{"role":"assistant"},"finish_reason":null,"index":0}],"id":"x","model":"m","object":"chat.completion.chunk"}"#
    );
    assert_eq!(
        step(&mut chat, StreamEvent::Arrived(delta("hello"))),
        [
            r#"{"choices":[{"delta":{"content":"hello"},"finish_reason":null,"index":0}],"id":"x","model":"m","object":"chat.completion.chunk"}"#
        ]
    );
    assert_eq!(step(&mut chat, StreamEvent::Quiet), [": keepalive"]);
    assert!(step(&mut chat, StreamEvent::Arrived(usage())).is_empty());
    assert!(!chat.finished);
    assert_eq!(
        step(&mut chat, StreamEvent::Arrived(completed())),
        [
            r#"{"choices":[{"delta":{},"finish_reason":"stop","index":0}],"id":"x","model":"m","object":"chat.completion.chunk"}"#,
            "[DONE]"
        ]
    );
    assert!(chat.finished);
    assert!(step(&mut chat, StreamEvent::Arrived(delta("more"))).is_empty());
    assert!(step(&mut chat, StreamEvent::Quiet).is_empty());
}

#[test]
fn response_streams_have_their_events() {
    let mut responses = stream(Endpoint::Responses, 512);
    assert_eq!(
        text_of(&responses.open()),
        r#"{"response":{"id":"x","model":"m","object":"response","status":"in_progress"},"type":"response.created"}"#
    );
    assert_eq!(
        step(&mut responses, StreamEvent::Arrived(delta("hello"))),
        [r#"{"delta":"hello","type":"response.output_text.delta"}"#]
    );
    assert_eq!(
        step(&mut responses, StreamEvent::Arrived(completed())),
        [
            r#"{"type":"response.output_text.done"}"#,
            r#"{"type":"response.completed"}"#
        ]
    );
    assert!(responses.finished);
}

#[test]
fn streams_end_at_the_limit() {
    let mut chat = stream(Endpoint::Chat, 5);
    assert_eq!(step(&mut chat, StreamEvent::Arrived(delta("hello"))).len(), 1);
    assert_eq!(chat.total, 5);
    assert!(step(&mut chat, StreamEvent::Arrived(delta(""))).len() == 1);
    assert!(step(&mut chat, StreamEvent::Arrived(delta("!"))).is_empty());
    assert!(chat.finished);

    let mut responses = stream(Endpoint::Responses, 5);
    assert_eq!(
        step(&mut responses, StreamEvent::Arrived(delta("ééé"))),
        [
            r#"{"error":{"code":null,"message":"response exceeded configured limit","param":null,"type":"backend_unavailable"}}"#
        ]
    );
    assert!(responses.finished);
}

#[test]
fn streams_report_failures_without_a_done_marker() {
    let error = |message: &str, kind: &str| {
        format!(
            r#"{{"error":{{"code":null,"message":"{}","param":null,"type":"{}"}}}}"#,
            message, kind
        )
    };
    assert_eq!(text_of(&sse_error("m", "k")), error("m", "k"));
    for endpoint in [Endpoint::Chat, Endpoint::Responses] {
        for (event, message, kind) in [
            (
                StreamEvent::Arrived(failed("boom")),
                "boom",
                "backend_unavailable",
            ),
            (
                StreamEvent::Arrived(None),
                "backend stream ended before completion",
                "backend_unavailable",
            ),
            (
                StreamEvent::Arrived(Some(Err(GatewayError::Backend("b".to_string())))),
                "backend failure: b",
                "backend_unavailable",
            ),
            (
                StreamEvent::Arrived(Some(Err(GatewayError::Timeout))),
                "request timed out",
                "backend_unavailable",
            ),
            (StreamEvent::TimedOut, "request timed out", "timeout_error"),
        ] {
            let mut open = stream(endpoint, 512);
            assert_eq!(step(&mut open, event), [error(message, kind)]);
            assert!(open.finished);
        }
    }
}

#[test]
fn texts_are_collected_up_to_the_limit() {
    let mut collector = Collector::new(5);
    assert!(matches!(collector.accept(delta("hel")), Progress::Continue));
    assert!(matches!(collector.accept(usage()), Progress::Continue));
    assert!(matches!(collector.accept(delta("lo")), Progress::Continue));
    assert_eq!(collector.text, "hello");
    assert!(matches!(collector.accept(completed()), Progress::Completed));
    match collector.accept(delta("!")) {
        Progress::Failed {
            error: GatewayError::Backend(message),
            cancel,
        } => {
            assert_eq!(message, "response exceeded configured limit");
            assert!(cancel);
        }
        other => panic!("{:?}", other),
    }
    match Collector::new(5).accept(None) {
        Progress::Failed {
            error: GatewayError::Backend(message),
            cancel,
        } => {
            assert_eq!(message, "backend stream ended before completion");
            assert!(!cancel);
        }
        other => panic!("{:?}", other),
    }
    assert!(matches!(
        Collector::new(5).accept(Some(Err(GatewayError::Unavailable))),
        Progress::Failed {
            error: GatewayError::Unavailable,
            cancel: false
        }
    ));
}

#[test]
fn exchanges_stop_runs_that_go_on() {
    let open = || {
        Exchange::new(
            Endpoint::Chat,
            false,
            "x".to_string(),
            "m".to_string(),
            4,
        )
    };
    let late = open().accept(CollectEvent::TimedOut, 7).unwrap();
    assert!(late.cancel);
    assert_eq!(late.reply.status, 504);
    assert_eq!(late.reply.body["error"]["type"], "timeout_error");
    let long = open()
        .accept(CollectEvent::Arrived(delta("hello")), 7)
        .unwrap();
    assert!(long.cancel);
    assert_eq!(long.reply.status, 502);
    assert_eq!(
        long.reply.body["error"]["message"],
        "backend failure: response exceeded configured limit"
    );
    let ended = open().accept(CollectEvent::Arrived(None), 7).unwrap();
    assert!(!ended.cancel);
    assert_eq!(ended.reply.status, 502);
}

#[test]
fn exchanges_open_as_asked() {
    let exchange = |streaming| {
        Exchange::new(
            Endpoint::Responses,
            streaming,
            "x".to_string(),
            "m".to_string(),
            4,
        )
    };
    match exchange(true).open(Ok(())) {
        Opening::Stream(stream) => {
            assert_eq!(stream.endpoint, Endpoint::Responses);
            assert_eq!((stream.id.as_str(), stream.model.as_str()), ("x", "m"));
            assert_eq!((stream.total, stream.max_bytes), (0, 4));
        }
        other => panic!("{:?}", other),
    }
    for streaming in [true, false] {
        match exchange(streaming).open(Err(GatewayError::Unavailable)) {
            Opening::Refuse(reply) => {
                assert_eq!(reply.status, 503);
                assert_eq!(reply.body["error"]["message"], "backend unavailable");
                assert_eq!(reply.body["error"]["type"], "backend_unavailable");
            }
            other => panic!("{:?}", other),
        }
    }
}

#[test]
fn failures_have_their_statuses() {
    let told = |error: GatewayError| {
        let reply = backend_error_response(error);
        (
            reply.status,
            reply.body["error"]["message"].as_str().unwrap().to_string(),
            reply.body["error"]["type"].as_str().unwrap().to_string(),
        )
    };
    let expect = |status: u16, message: &str, kind: &str| {
        (status, message.to_string(), kind.to_string())
    };
    assert_eq!(
        told(GatewayError::Timeout),
        expect(504, "request timed out", "timeout_error")
    );
    assert_eq!(
        told(GatewayError::Invalid("i".to_string())),
        expect(400, "i", "invalid_request_error")
    );
    assert_eq!(
        told(GatewayError::Config("c".to_string())),
        expect(502, "c", "backend_unavailable")
    );
    assert_eq!(
        told(GatewayError::Unavailable),
        expect(503, "backend unavailable", "backend_unavailable")
    );
    assert_eq!(
        told(GatewayError::Backend("b".to_string())),
        expect(502, "backend failure: b", "backend_unavailable")
    );
    assert_eq!(timeout_response().status, 504);
    assert_eq!(
        backend_rejection_response(&GatewayError::Timeout).status,
        503
    );
    assert_eq!(
        GatewayError::Backend("b".to_string()).clone().to_string(),
        "backend failure: b"
    );
}

#[test]
fn unreadable_bodies_are_refused() {
    let large = json_rejection_response(413);
    assert_eq!(large.status, 413);
    assert_eq!(
        large.body["error"]["message"],
        "request body exceeds the configured limit"
    );
    for status in [400, 415, 422, 500] {
        let reply = json_rejection_response(status);
        assert_eq!(reply.status, 400);
        assert_eq!(
            reply.body.to_string(),
            r#"{"error":{"code":null,"message":"request body is not valid JSON for this endpoint","param":null,"type":"invalid_request_error"}}"#
        );
    }
}

#[test]
fn requests_are_prepared() {
    let request = prepare_chat(&chat_request("codex", said("hi")), &config()).unwrap();
    assert_eq!(request.model, "gpt-5.4-mini");
    assert_eq!(request.timeout_seconds, 1);
    assert_eq!(request.input.len(), 3);

    let request = prepare_response(
        ResponseRequest {
            model: Some("gpt-5.5".to_string()),
            input: Input::Text("hi".to_string()),
            stream: true,
        },
        &config(),
    )
    .unwrap();
    assert_eq!(request.model, "gpt-5.5");
    match &request.input[0] {
        CodexInput::Text { text } => assert_eq!(text, "<message role=\"user\">\n"),
        other => panic!("{:?}", other),
    }
    match &request.input[1] {
        CodexInput::Text { text } => assert_eq!(text, "hi"),
        other => panic!("{:?}", other),
    }
}

#[test]
fn requests_are_turned_down_in_order() {
    let refusal = |request: &ChatRequest| {
        let reply = prepare_chat(request, &config()).err().unwrap();
        (
            reply.status,
            reply.body["error"]["message"].as_str().unwrap().to_string(),
            reply.body["error"]["param"].as_str().unwrap().to_string(),
        )
    };
    let mut request = chat_request("nope", vec![]);
    assert_eq!(refusal(&request).0, 404);
    request.model = None;
    assert_eq!(
        refusal(&request),
        (404, "model is required".to_string(), "model".to_string())
    );
    request.model = Some("codex".to_string());
    let count = (
        400,
        "messages count is outside the supported range".to_string(),
        "messages".to_string(),
    );
    assert_eq!(refusal(&request), count);
    request.messages = (0..129).flat_map(|_| said("")).collect();
    assert_eq!(refusal(&request), count);
    request.messages.pop();
    assert_eq!(
        refusal(&request).1,
        "prompt and attachment URLs exceed configured limit"
    );
    request.messages = vec![Message {
        role: "tool".to_string(),
        content: Content::Text("hi".to_string()),
    }];
    assert_eq!(
        refusal(&request),
        (
            400,
            "unsupported message role".to_string(),
            "messages".to_string()
        )
    );
    let empty = ResponseRequest {
        model: Some("codex".to_string()),
        input: Input::Messages(vec![]),
        stream: false,
    };
    let reply = prepare_response(empty, &config()).err().unwrap();
    assert_eq!(
        reply.body["error"]["message"],
        "input message count is outside the supported range"
    );
    assert_eq!(reply.body["error"]["param"], "input");
}

#[test]
fn names_are_random_uuids() {
    let is_uuid = |text: &str| {
        text.len() == 32
            && text
                .chars()
                .all(|c| c.is_ascii_digit() || ('a'..='f').contains(&c))
            && &text[12..13] == "4"
            && "89ab".contains(&text[16..17])
    };
    assert!(is_uuid(&request_id()));
    assert!(is_uuid(completion_id().strip_prefix("chatcmpl_").unwrap()));
    assert!(is_uuid(response_id().strip_prefix("resp_").unwrap()));
    assert_ne!(request_id(), request_id());
    assert_eq!(name_from("resp_", "0a"), "resp_0a");
    assert_eq!(name_from("", ""), "");
}

#[test]
fn a_backend_that_goes_away_is_unavailable() {
    let reply = answer_chat(
        &chat_request("codex", said("hi")),
        vec![delta("hel"), Some(Err(GatewayError::Unavailable))],
    );
    assert_eq!(reply.status, 503);
    assert_eq!(
        reply.body.to_string(),
        r#"{"error":{"code":null,"message":"backend unavailable","param":null,"type":"backend_unavailable"}}"#
    );
}

#[test]
fn quiet_spells_bring_signs_of_life_alone() {
    let run = |events: Vec<StreamEvent>| {
        let mut chat = stream(Endpoint::Chat, 512);
        let mut frames = Vec::new();
        for event in events {
            frames.extend(step(&mut chat, event));
        }
        frames.retain(|frame| frame != ": keepalive");
        frames
    };
    let quiet = run(vec![
        StreamEvent::Quiet,
        StreamEvent::Arrived(delta("a")),
        StreamEvent::Quiet,
        StreamEvent::Quiet,
        StreamEvent::Arrived(completed()),
        StreamEvent::Quiet,
    ]);
    assert_eq!(
        quiet,
        run(vec![
            StreamEvent::Arrived(delta("a")),
            StreamEvent::Arrived(completed()),
        ])
    );
    assert_eq!(quiet.len(), 3);
}

#[test]
fn nothing_completes_after_a_failure() {
    for endpoint in [Endpoint::Chat, Endpoint::Responses] {
        let mut open = stream(endpoint, 512);
        step(&mut open, StreamEvent::Arrived(delta("a")));
        let last = step(&mut open, StreamEvent::TimedOut);
        assert!(last[0].contains("timeout_error"));
        assert!(step(&mut open, StreamEvent::Arrived(completed())).is_empty());
    }
}

#[test]
fn closed_streams_give_their_permit_back() {
    let mut open = OpenStream::new(stream(Endpoint::Chat, 512), "permit");
    assert_eq!(open.accept(StreamEvent::Arrived(delta("a"))).len(), 1);
    let closing = open.close();
    assert!(closing.cancel && closing.disconnected);
    assert_eq!(closing.permit, "permit");

    let mut open = OpenStream::new(stream(Endpoint::Chat, 512), 7u8);
    assert_eq!(open.accept(StreamEvent::Arrived(completed())).len(), 2);
    let closing = open.close();
    assert!(closing.cancel && !closing.disconnected);
    assert_eq!(closing.permit, 7);
}
