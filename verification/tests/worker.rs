use codex_openai_gateway::json::encode_line;
use codex_openai_gateway::protocol::{
    check_initialization, check_response, initialize, initialized, lost_handshake, thread_start,
    turn_interrupt, turn_start, HandshakeEnd, ServerMessage,
};
use codex_openai_gateway::worker::{
    lost_output, IdSource, LineEffect, OutputEnd, Settlement, Worker,
};
use codex_openai_gateway::{
    AuthTracker, CodexEvent, CodexInput, CodexRequest, GatewayError,
};
use serde_json::Value;

fn request(text: &str) -> CodexRequest {
    CodexRequest {
        model: "gpt-5.4-mini".into(),
        input: vec![CodexInput::Text { text: text.into() }],
        timeout_seconds: 1,
    }
}

fn parse(text: &str) -> Value {
    serde_json::from_str(text).unwrap()
}

/// A worker with what it shares with others, and runs that are known by a number.
struct Bench {
    worker: Worker<u8>,
    ids: IdSource,
    auth: AuthTracker,
}

impl Bench {
    fn new(max_turns: u64) -> Bench {
        let mut worker = Worker::new(max_turns);
        worker.connected();
        Bench {
            worker,
            ids: IdSource::new(),
            auth: AuthTracker::default(),
        }
    }

    fn enqueue(&mut self, handle: u8) {
        self.worker.enqueue(request("hi"), handle, &mut self.ids);
    }

    fn line(&mut self, line: &str) -> LineEffect {
        self.worker
            .handle_server_line(line, &mut self.ids, &mut self.auth, 9)
    }

    /// A line that must do nothing but hand on events.
    fn events(&mut self, line: &str) -> Vec<CodexEvent> {
        let effect = self.line(line);
        assert!(effect.send.is_none());
        assert!(effect.failure.is_none());
        effect.events
    }

    /// Why a line breaks the connection.
    fn failure(&mut self, line: &str) -> String {
        match self.line(line).failure {
            Some(GatewayError::Backend(message)) => message,
            other => panic!("{:?}", other),
        }
    }

    /// Brings the first run to the point where its turn is known.
    fn start_turn(&mut self) {
        let first = self.worker.queue.front().unwrap().thread_request_id;
        assert!(self.worker.thread_start().is_some());
        self.worker.thread_start_sent();
        let effect = self.line(&format!(
            r#"{{"id":{},"result":{{"thread":{{"id":"t"}}}}}}"#,
            first
        ));
        assert!(effect.send.is_some());
        let turn = self
            .worker
            .queue
            .front()
            .unwrap()
            .turn_request_id
            .unwrap();
        assert!(self
            .events(&format!(
                r#"{{"id":{},"result":{{"turn":{{"id":"u"}}}}}}"#,
                turn
            ))
            .is_empty());
    }

    fn complete_turn(&mut self) {
        let events = self.events(
            r#"{"method":"turn/completed","params":{"threadId":"t","turn":{"status":"completed"}}}"#,
        );
        assert!(matches!(events.last(), Some(CodexEvent::Completed)));
    }
}

#[test]
fn fake_app_server_protocol_round_trip() {
    let mut bench = Bench::new(0);
    assert!(bench.worker.announce());
    assert!(!bench.worker.announce());
    bench.worker.enqueue(request("hello"), 7, &mut bench.ids);
    assert!(!bench.worker.is_idle);
    assert_eq!(
        bench.worker.thread_start().unwrap().to_string(),
        r#"{"id":2,"method":"thread/start","params":{"ephemeral":true,"model":"gpt-5.4-mini","sandbox":"read-only"}}"#
    );
    bench.worker.thread_start_sent();
    assert!(bench.worker.thread_start().is_none());
    let effect = bench.line(r#"{"id":2,"result":{"thread":{"id":"thread-1"}}}"#);
    assert_eq!(
        effect.send.unwrap().to_string(),
        r#"{"id":3,"method":"turn/start","params":{"input":[{"text":"hello","type":"text"}],"model":"gpt-5.4-mini","sandboxPolicy":{"networkAccess":false,"type":"readOnly"},"threadId":"thread-1"}}"#
    );
    assert!(bench
        .events(r#"{"id":3,"result":{"turn":{"id":"turn-1"}}}"#)
        .is_empty());
    let mut text = String::new();
    for line in [
        r#"{"method":"item/agentMessage/delta","params":{"threadId":"thread-1","delta":"fake "}}"#,
        r#"{"method":"item/commandExecution/outputDelta","params":{"threadId":"thread-1","delta":"ls"}}"#,
        r#"{"method":"item/agentMessage/delta","params":{"threadId":"other","delta":"not mine"}}"#,
        r#"{"method":"item/agentMessage/delta","params":{"threadId":"thread-1","delta":"response"}}"#,
    ] {
        for event in bench.events(line) {
            match event {
                CodexEvent::TextDelta(delta) => text.push_str(&delta),
                other => panic!("{:?}", other),
            }
        }
    }
    assert_eq!(text, "fake response");
    let events = bench.events(
        r#"{"method":"turn/completed","params":{"threadId":"thread-1","turn":{"status":"completed"},"usage":{"inputTokens":5}}}"#,
    );
    assert_eq!(events.len(), 2);
    assert!(matches!(
        events[0],
        CodexEvent::Usage {
            input_tokens: Some(5),
            output_tokens: None
        }
    ));
    assert!(matches!(events[1], CodexEvent::Completed));
    assert_eq!(bench.auth.last_success(), Some(9));
    assert_eq!(bench.worker.settle(false), Settlement::Keep);
    assert!(bench.worker.queue.is_empty());
    assert!(bench.worker.connected);
    assert!(bench.worker.announce());
}

#[test]
fn app_server_child_is_recycled_after_turn_budget() {
    let mut bench = Bench::new(3);
    let mut children = 1;
    for turn in 1..=7 {
        bench.enqueue(turn);
        bench.start_turn();
        bench.complete_turn();
        match bench.worker.settle(false) {
            Settlement::Recycle => {
                assert!(!bench.worker.connected);
                bench.worker.connected();
                children += 1;
                assert_eq!(bench.worker.turns_served, 0);
            }
            other => assert_eq!(other, Settlement::Keep),
        }
    }
    assert_eq!(children, 3);
}

#[test]
fn busy_children_are_not_recycled() {
    let mut bench = Bench::new(1);
    bench.enqueue(1);
    bench.enqueue(2);
    bench.start_turn();
    bench.complete_turn();
    assert_eq!(bench.worker.settle(false), Settlement::Keep);
    assert_eq!(bench.worker.turns_served, 1);
    bench.start_turn();
    assert_eq!(bench.worker.settle(false), Settlement::Keep);
    bench.complete_turn();
    assert_eq!(bench.worker.settle(false), Settlement::Recycle);
}

#[test]
fn failed_connections_are_given_up() {
    let mut bench = Bench::new(1);
    bench.enqueue(1);
    bench.start_turn();
    bench.complete_turn();
    assert_eq!(bench.worker.settle(true), Settlement::Reconnect);
    assert!(!bench.worker.connected);
    assert!(bench.worker.queue.is_empty());
}

#[test]
fn turns_that_end_badly_are_reported_as_failed() {
    for (turn, message) in [
        (r#"{"status":"interrupted"}"#, "Codex turn was interrupted"),
        (r#"{"status":"failed"}"#, "Codex turn failed"),
        (
            r#"{"status":"failed","error":{"message":"refresh token was revoked"}}"#,
            "refresh token was revoked",
        ),
    ] {
        let mut bench = Bench::new(0);
        bench.enqueue(1);
        bench.start_turn();
        let events = bench.events(&format!(
            r#"{{"method":"turn/completed","params":{{"threadId":"t","turn":{}}}}}"#,
            turn
        ));
        assert_eq!(events.len(), 1);
        match &events[0] {
            CodexEvent::Failed(text) => assert_eq!(text, message),
            other => panic!("{:?}", other),
        }
        assert_eq!(
            bench.auth.failure().is_some(),
            message == "refresh token was revoked"
        );
        assert!(bench.auth.last_success().is_none());
        bench.worker.settle(false);
        assert!(bench.worker.queue.is_empty());
    }
}

#[test]
fn lines_that_break_the_protocol_break_the_connection() {
    let mut bench = Bench::new(0);
    assert_eq!(bench.failure("nonsense"), "invalid app-server JSON");
    assert!(bench.events(r#"{"id":2,"result":{}}"#).is_empty());
    bench.enqueue(1);
    assert_eq!(
        bench.failure(r#"{"id":2,"result":{"thread":{"id":5}}}"#),
        "thread/start returned no thread id"
    );
    bench.start_turn();
    let turn = bench
        .worker
        .queue
        .front()
        .unwrap()
        .turn_request_id
        .unwrap();
    assert_eq!(
        bench.failure(&format!(r#"{{"id":{},"error":{{}}}}"#, turn)),
        "app-server turn failed"
    );
    assert_eq!(
        bench.failure(&format!(r#"{{"id":{},"result":{{}}}}"#, turn)),
        "turn/start returned no turn id"
    );
    let effect = bench.line(
        r#"{"method":"turn/completed","params":{"threadId":"t","turn":{"status":"odd"},"usage":null}}"#,
    );
    assert_eq!(effect.events.len(), 1);
    match effect.failure {
        Some(GatewayError::Backend(message)) => {
            assert_eq!(message, "turn/completed had an invalid status")
        }
        other => panic!("{:?}", other),
    }
    assert_eq!(bench.worker.settle(false), Settlement::Keep);
    assert_eq!(bench.worker.queue.len(), 1);
}

#[test]
fn all_runs_fail_in_order() {
    let mut bench = Bench::new(0);
    for handle in [4, 5, 6] {
        bench.enqueue(handle);
    }
    let failed = bench
        .worker
        .fail_active(&GatewayError::Backend("gone".to_string()));
    let told: Vec<(u8, String)> = failed
        .into_iter()
        .map(|(handle, error)| (handle, error.to_string()))
        .collect();
    let gone = "backend failure: gone".to_string();
    assert_eq!(told, [(4, gone.clone()), (5, gone.clone()), (6, gone)]);
    assert!(bench.worker.queue.is_empty());
    assert!(bench
        .worker
        .fail_active(&GatewayError::Unavailable)
        .is_empty());
}

#[test]
fn cancelled_runs_leave_the_queue() {
    let mut bench = Bench::new(0);
    for handle in [1, 2, 3, 4] {
        bench.enqueue(handle);
    }
    let tick = bench
        .worker
        .tick(&[true, true, false, true], &mut bench.ids);
    assert!(tick.interrupt.is_none());
    let gone: Vec<u8> = tick.timed_out.iter().map(|notice| notice.0).collect();
    assert_eq!(gone, [2, 4]);
    assert!(tick
        .timed_out
        .iter()
        .all(|notice| matches!(notice.1, GatewayError::Timeout)));
    let left: Vec<u8> = bench.worker.queue.iter().map(|run| run.handle).collect();
    assert_eq!(left, [1, 3]);
}

#[test]
fn cancelled_turns_are_interrupted_once() {
    let mut bench = Bench::new(0);
    bench.enqueue(1);
    bench.start_turn();
    assert!(bench
        .worker
        .tick(&[false], &mut bench.ids)
        .interrupt
        .is_none());
    let interrupt = bench.worker.tick(&[true], &mut bench.ids).interrupt.unwrap();
    assert_eq!(
        interrupt.to_string(),
        r#"{"id":4,"method":"turn/interrupt","params":{"threadId":"t","turnId":"u"}}"#
    );
    bench.worker.interrupt_sent();
    for line in [
        r#"{"method":"item/agentMessage/delta","params":{"threadId":"t","delta":"d"}}"#,
        r#"{"method":"item/started","params":{"threadId":"t"}}"#,
        r#"{"id":4,"result":{}}"#,
    ] {
        bench.events(line);
    }
    assert!(bench
        .worker
        .tick(&[true], &mut bench.ids)
        .interrupt
        .is_none());
    assert_eq!(bench.worker.queue.len(), 1);
}

#[test]
fn reconnecting_backs_off_up_to_half_a_minute() {
    let mut worker: Worker<u8> = Worker::new(0);
    let delays: Vec<u64> = (0..9).map(|_| worker.connect_failed()).collect();
    assert_eq!(
        delays,
        [500, 1_000, 2_000, 4_000, 8_000, 16_000, 30_000, 30_000, 30_000]
    );
    assert!(!worker.connected);
    worker.connected();
    assert!(worker.connected);
    assert_eq!(worker.connect_failed(), 500);
}

#[test]
fn ids_start_over() {
    let mut ids = IdSource::new();
    assert_eq!((ids.next_id(), ids.next_id()), (2, 3));
    ids.next = u64::MAX;
    assert_eq!((ids.next_id(), ids.next_id()), (u64::MAX, 0));
}

#[test]
fn handshakes_are_checked() {
    assert_eq!(
        initialize().to_string(),
        r#"{"id":1,"method":"initialize","params":{"clientInfo":{"name":"codex-openai-gateway","title":"Codex OpenAI Gateway","version":"0.1.0"}}}"#
    );
    assert_eq!(
        initialized().to_string(),
        r#"{"method":"initialized","params":{}}"#
    );
    assert!(check_initialization(r#"{"id":1,"result":null}"#).is_ok());
    assert!(check_response(&parse(r#"{"result":{}}"#)).is_ok());
    let reason = |line: &str| check_initialization(line).unwrap_err().to_string();
    assert_eq!(
        reason("{"),
        "backend failure: invalid initialization response"
    );
    for line in [r#"{"id":1}"#, r#"{"result":{},"error":null}"#, "[]"] {
        assert_eq!(
            reason(line),
            "backend failure: app-server initialization failed"
        );
    }
}

#[test]
fn requests_are_written_one_per_line() {
    let line = encode_line(&thread_start(2, "a\nb"));
    assert!(line.ends_with("}\n"));
    assert_eq!(line.matches('\n').count(), 1);
    assert_eq!(parse(&line), thread_start(2, "a\nb"));
    assert_eq!(
        turn_interrupt(8, "t", "u").to_string(),
        r#"{"id":8,"method":"turn/interrupt","params":{"threadId":"t","turnId":"u"}}"#
    );
    let params = turn_start(8, "t", "m", &vec![]);
    assert_eq!(params["params"]["input"].to_string(), "[]");
    assert_eq!(
        params["params"]["sandboxPolicy"].to_string(),
        r#"{"networkAccess":false,"type":"readOnly"}"#
    );
}

#[test]
fn messages_are_read() {
    let message = ServerMessage::read(&parse(
        r#"{"id":4,"error":null,"method":"m","params":{"threadId":"t","delta":"d","usage":[],"turn":{"status":"s","error":{"message":"e"}}},"result":{"thread":{"id":"a"},"turn":{"id":"b"}}}"#,
    ));
    assert_eq!(message.id, Some(4));
    assert!(message.has_error);
    assert_eq!(message.new_thread_id.as_deref(), Some("a"));
    assert_eq!(message.new_turn_id.as_deref(), Some("b"));
    assert_eq!(message.method.as_deref(), Some("m"));
    assert_eq!(message.thread_id.as_deref(), Some("t"));
    assert_eq!(message.delta.as_deref(), Some("d"));
    assert_eq!(message.usage.unwrap().input_tokens, None);
    assert_eq!(message.status.as_deref(), Some("s"));
    assert_eq!(message.error_message.as_deref(), Some("e"));
    let message = ServerMessage::read(&parse(r#"{"id":-4,"params":"x","method":1}"#));
    assert_eq!(message.id, None);
    assert!(!message.has_error);
    assert!(message.method.is_none() && message.usage.is_none() && message.thread_id.is_none());
    let message = ServerMessage::read(&parse(r#"{"id":4.0}"#));
    assert_eq!(message.id, None);
}

#[test]
fn lost_children_are_told_apart() {
    assert!(matches!(
        lost_output(OutputEnd::Closed),
        GatewayError::Unavailable
    ));
    assert!(matches!(
        lost_output(OutputEnd::Unreadable("bad".to_string())),
        GatewayError::Backend(reason) if reason == "bad"
    ));
}

#[test]
fn handshakes_without_a_line_are_told_apart() {
    assert!(matches!(
        lost_handshake(HandshakeEnd::TimedOut),
        GatewayError::Timeout
    ));
    for end in [HandshakeEnd::Closed, HandshakeEnd::Unreadable] {
        assert!(matches!(lost_handshake(end), GatewayError::Unavailable));
    }
}

#[test]
fn text_is_forwarded_among_other_messages() {
    let mut bench = Bench::new(0);
    bench.enqueue(1);
    // Before the run has a thread, nothing of another one reaches it.
    for line in [
        r#"{"method":"item/agentMessage/delta","params":{"threadId":"x","delta":"no"}}"#,
        r#"{"method":"turn/completed","params":{"threadId":"x","turn":{"status":"completed"}}}"#,
    ] {
        assert!(bench.events(line).is_empty());
    }
    bench.start_turn();
    let mut text = String::new();
    for line in [
        r#"{"method":"item/agentMessage/delta","params":{"threadId":"t","delta":"a"}}"#,
        r#"{"method":"turn/completed","params":{"threadId":"x","turn":{"status":"failed"}}}"#,
        r#"{"id":77,"result":{"thread":{"id":"x"}}}"#,
        r#"{"method":"item/agentMessage/delta","params":{"threadId":"t"}}"#,
        r#"{"method":"turn/diff/updated","params":{"threadId":"t","delta":"no"}}"#,
        r#"{"method":"item/agentMessage/delta","params":{"threadId":"t","delta":"b"}}"#,
    ] {
        for event in bench.events(line) {
            match event {
                CodexEvent::TextDelta(delta) => text.push_str(&delta),
                other => panic!("{:?}", other),
            }
        }
    }
    assert_eq!(text, "ab");
    bench.complete_turn();
}

#[test]
fn workers_without_a_limit_keep_their_child() {
    let mut bench = Bench::new(0);
    for turn in 1..=9 {
        bench.enqueue(turn);
        bench.start_turn();
        bench.complete_turn();
        assert_eq!(bench.worker.settle(false), Settlement::Keep);
    }
    assert_eq!(bench.worker.turns_served, 9);
}
