use codex_openai_gateway::exec_backend::{
    any_ready, exec_prompt, extract_text, finish_exec, handle_document, handle_exec, route,
    ExecExit, ExecInput, ExecRun, ExecStep, Route,
};
use codex_openai_gateway::process::{kill_order, parse_pid, parse_ppid, Process};
use codex_openai_gateway::{CodexEvent, CodexInput, GatewayError};
use serde_json::Value;

fn parse(text: &str) -> Value {
    serde_json::from_str(text).unwrap()
}

fn snapshot(pairs: &[(u32, u32)]) -> Vec<Process> {
    pairs
        .iter()
        .map(|&(pid, parent)| Process { pid, parent })
        .collect()
}

#[test]
fn trees_are_killed_leaves_first() {
    let processes = snapshot(&[
        (1, 0),
        (10, 1),
        (20, 10),
        (30, 20),
        (21, 10),
        (31, 21),
        (99, 1),
    ]);
    assert_eq!(kill_order(&processes, 10, true), [30, 20, 31, 21, 10]);
    assert_eq!(kill_order(&processes, 10, false), [30, 20, 31, 21]);
    assert_eq!(kill_order(&processes, 99, true), [99]);
    assert!(kill_order(&processes, 99, false).is_empty());
}

#[test]
fn a_root_that_is_gone_still_has_descendants() {
    let processes = snapshot(&[(20, 10), (30, 20)]);
    assert_eq!(kill_order(&processes, 10, true), [30, 20, 10]);
    assert_eq!(kill_order(&[].to_vec(), 10, true), [10]);
}

#[test]
fn rings_are_walked_once() {
    let processes = snapshot(&[(1, 3), (2, 1), (3, 2)]);
    assert_eq!(kill_order(&processes, 1, true), [3, 2, 1]);
    assert_eq!(kill_order(&snapshot(&[(5, 5)]), 5, true), [5]);
    assert_eq!(
        kill_order(&snapshot(&[(2, 1), (2, 1), (3, 2)]), 1, false),
        [3, 2]
    );
}

#[test]
fn parents_are_read_from_status_lines() {
    assert_eq!(parse_ppid("42 (node) S 7 42 42 0"), Some(7));
    assert_eq!(parse_ppid("42 (a) b (c d)) R 8 1"), Some(8));
    assert_eq!(parse_ppid("42 (node)\tS\n9\n"), Some(9));
    assert_eq!(parse_ppid("42 node S 7"), None);
    assert_eq!(parse_ppid("42 (node) S"), None);
    assert_eq!(parse_ppid("42 (node) S x"), None);
    assert_eq!(parse_ppid("42 (node) S -7"), None);
    assert_eq!(parse_ppid("42 (node)\u{3000}S\u{a0}7\u{2009}1"), Some(7));
}

#[test]
fn process_ids_are_numbers() {
    for text in [
        "0",
        "7",
        "+7",
        "007",
        "4294967295",
        "4294967296",
        "99999999999999999999999",
        "",
        "+",
        "-1",
        "++1",
        "1a",
        " 1",
        "٣",
        "self",
    ] {
        assert_eq!(parse_pid(text), text.parse::<u32>().ok(), "{}", text);
    }
}

#[test]
fn requests_are_routed() {
    assert_eq!(route(true, true), Route::AppServer);
    assert_eq!(route(true, false), Route::AppServer);
    assert_eq!(route(false, true), Route::Exec);
    assert_eq!(route(false, false), Route::Refused);
    assert!(any_ready(&[false, true]));
    assert!(!any_ready(&[false, false]));
    assert!(!any_ready(&[]));
}

#[test]
fn prompts_hold_texts_alone() {
    let text = |text: &str| CodexInput::Text {
        text: text.to_string(),
    };
    assert_eq!(exec_prompt(&[text("a"), text("b")]).unwrap(), "ab");
    assert_eq!(exec_prompt(&[]).unwrap(), "");
    let image = CodexInput::Image {
        url: "https://e.x/".to_string(),
        detail: None,
    };
    assert!(matches!(
        exec_prompt(&[text("a"), image, text("b")]),
        Err(GatewayError::Unavailable)
    ));
}

#[test]
fn texts_are_found_in_their_order() {
    for (line, text) in [
        (
            r#"{"text":"a","params":{"delta":"b"},"item":{"text":"c"}}"#,
            Some("a"),
        ),
        (
            r#"{"text":1,"params":{"delta":"b"},"item":{"text":"c"}}"#,
            Some("b"),
        ),
        (r#"{"params":{},"item":{"text":"c"}}"#, Some("c")),
        (r#"{"item":{}}"#, None),
        (r#"{"text":""}"#, Some("")),
    ] {
        assert_eq!(extract_text(&parse(line)).as_deref(), text);
    }
}

fn flags(step: &ExecStep) -> (bool, bool, bool) {
    (step.kill, step.stop, step.completed)
}

#[test]
fn lines_are_handled() {
    let line = |text: &str| handle_exec(&ExecInput::Line(text.to_string()));
    let step = line(r#"{"type":"item.delta","text":"hi"}"#);
    assert_eq!(flags(&step), (false, false, false));
    assert!(matches!(step.send, Some(Ok(CodexEvent::TextDelta(text))) if text == "hi"));

    let step = line(r#"{"type":"turn.completed"}"#);
    assert_eq!(flags(&step), (false, true, true));
    assert!(step.send.is_none());

    // An item that is completed counts as the end, and its text is handed on.
    let step = handle_document(&parse(
        r#"{"type":"item.completed","item":{"text":"bye"}}"#,
    ));
    assert_eq!(flags(&step), (false, true, true));
    assert!(matches!(step.send, Some(Ok(CodexEvent::TextDelta(text))) if text == "bye"));

    let step = line("oops");
    assert_eq!(flags(&step), (true, true, false));
    assert!(
        matches!(step.send, Some(Err(GatewayError::Backend(text))) if text == "codex exec returned malformed JSONL")
    );
}

#[test]
fn other_ends_are_handled() {
    let step = handle_exec(&ExecInput::Cancelled);
    assert_eq!(flags(&step), (true, true, false));
    assert!(step.send.is_none());
    let step = handle_exec(&ExecInput::Expired);
    assert_eq!(flags(&step), (true, true, false));
    assert!(matches!(step.send, Some(Err(GatewayError::Timeout))));
    let step = handle_exec(&ExecInput::Closed);
    assert_eq!(flags(&step), (false, true, false));
    assert!(step.send.is_none());
    let step = handle_exec(&ExecInput::Unreadable);
    assert_eq!(flags(&step), (false, true, false));
    assert!(
        matches!(step.send, Some(Err(GatewayError::Backend(text))) if text == "codex exec output could not be read")
    );
}

#[test]
fn exits_are_told() {
    let told = |exit, completed, cancelled| match finish_exec(exit, completed, cancelled) {
        Some(Ok(CodexEvent::Completed)) => "completed".to_string(),
        Some(Err(error)) => error.to_string(),
        None => "nothing".to_string(),
        Some(Ok(other)) => panic!("{:?}", other),
    };
    let early = "backend failure: codex exec exited before completion";
    let unreaped = "backend failure: codex exec could not be reaped";
    for (exit, completed, cancelled, text) in [
        (ExecExit::Success, true, false, "completed"),
        (ExecExit::Success, true, true, "completed"),
        (ExecExit::Success, false, false, early),
        (ExecExit::Success, false, true, "nothing"),
        (ExecExit::Failure, true, false, early),
        (ExecExit::Failure, true, true, "nothing"),
        (ExecExit::Unreaped, true, false, unreaped),
        (ExecExit::Unreaped, false, true, "nothing"),
    ] {
        assert_eq!(told(exit, completed, cancelled), text);
    }
}

#[test]
fn whole_runs_end_with_their_completion() {
    let line = |text: &str| ExecInput::Line(text.to_string());
    let told = |inputs: Vec<ExecInput>, exit, cancelled| {
        let mut run = ExecRun::new();
        let mut sent = Vec::new();
        for input in &inputs {
            sent.extend(run.accept(input).send);
        }
        sent.extend(run.finish(exit, cancelled));
        sent.into_iter()
            .map(|event| match event {
                Ok(CodexEvent::TextDelta(text)) => text,
                Ok(CodexEvent::Completed) => "completed".to_string(),
                Ok(other) => panic!("{:?}", other),
                Err(error) => error.to_string(),
            })
            .collect::<Vec<String>>()
    };
    let early = "backend failure: codex exec exited before completion";
    let text = r#"{"text":"hi"}"#;
    let end = r#"{"type":"turn.completed"}"#;
    assert_eq!(
        told(
            vec![line(text), line(end), line(text)],
            ExecExit::Success,
            false
        ),
        ["hi", "completed"]
    );
    assert_eq!(
        told(vec![line(text), line(end)], ExecExit::Failure, false),
        ["hi", early]
    );
    assert_eq!(
        told(vec![ExecInput::Expired, line(end)], ExecExit::Success, false),
        ["request timed out", early]
    );
    assert_eq!(
        told(vec![line(text), ExecInput::Closed], ExecExit::Success, false),
        ["hi", early]
    );
    assert!(told(vec![ExecInput::Cancelled], ExecExit::Failure, true).is_empty());
}

#[test]
fn abandoned_runs_are_not_completed() {
    let mut run = ExecRun::new();
    let step = run.accept(&ExecInput::Line(
        r#"{"type":"item.completed","text":"bye"}"#.to_string(),
    ));
    assert!(step.completed && run.completed && run.stopped);
    run.abandon();
    assert!(!run.completed && run.stopped);
    assert!(matches!(
        run.finish(ExecExit::Success, false),
        Some(Err(GatewayError::Backend(_)))
    ));
}
