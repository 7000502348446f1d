use codex_openai_gateway::config::models;
use codex_openai_gateway::{resolve_model, Config, GatewayError, SUPPORTED_MODELS};

fn config() -> Config {
    Config {
        default_model: "gpt-5.4-mini".into(),
        codex_binary: "codex".into(),
        codex_home: "/tmp".into(),
        runtime_dir: "/tmp".into(),
        exec_fallback: false,
        timeout_seconds: 1,
        max_concurrent_runs: 2,
        app_server_max_turns: 0,
        max_request_body_bytes: 1_048_576,
        max_prompt_bytes: 512,
        max_response_bytes: 512,
        max_messages: 128,
        server_host: "127.0.0.1".into(),
        server_port: 8989,
    }
}

#[test]
fn model_alias_is_resolved() {
    assert_eq!(
        resolve_model(Some("codex"), &config()).unwrap(),
        "gpt-5.4-mini"
    );
}

#[test]
fn configured_models_are_resolved() {
    for model in SUPPORTED_MODELS {
        assert_eq!(resolve_model(Some(model), &config()).unwrap(), model);
    }
}

#[test]
fn unknown_models_are_refused() {
    assert_eq!(
        resolve_model(Some("gpt-5.5 "), &config()).unwrap_err(),
        "the requested model is not supported"
    );
    assert_eq!(
        resolve_model(None, &config()).unwrap_err(),
        "model is required"
    );
}

fn refused(config: Config) -> bool {
    match Config::from_env(config) {
        Ok(_) => false,
        Err(GatewayError::Config(reason)) => reason == "invalid required configuration",
        Err(_) => panic!("another error"),
    }
}

#[test]
fn settings_that_cannot_work_are_refused() {
    assert!(!refused(config()));
    for model in SUPPORTED_MODELS {
        assert!(!refused(Config {
            default_model: model.to_string(),
            ..config()
        }));
    }
    assert!(refused(Config {
        default_model: "codex".to_string(),
        ..config()
    }));
    assert!(refused(Config {
        timeout_seconds: 0,
        ..config()
    }));
    assert!(refused(Config {
        max_concurrent_runs: 0,
        ..config()
    }));
    assert!(refused(Config {
        max_messages: 0,
        ..config()
    }));
    assert!(refused(Config {
        max_request_body_bytes: 0,
        ..config()
    }));
    assert!(refused(Config {
        max_prompt_bytes: 0,
        ..config()
    }));
    assert!(refused(Config {
        max_response_bytes: 0,
        ..config()
    }));
    // A limit of no turns keeps every child, and is fine.
    assert!(!refused(Config {
        app_server_max_turns: 0,
        ..config()
    }));
}

#[test]
fn the_default_settings_work() {
    let config = Config::from_env(Config::default()).unwrap();
    assert_eq!(config.default_model, "gpt-5.6-luna");
    assert_eq!(config.codex_binary, "codex");
    assert_eq!(config.codex_home, "/home/codex/.codex");
    assert_eq!(config.runtime_dir, "/home/codex/runtime");
    assert!(config.exec_fallback);
    assert_eq!(config.timeout_seconds, 600);
    assert_eq!(config.max_concurrent_runs, 4);
    assert_eq!(config.app_server_max_turns, 100);
    assert_eq!(config.max_request_body_bytes, 20_971_520);
    assert_eq!(config.max_prompt_bytes, 16_777_216);
    assert_eq!(config.max_response_bytes, 4_194_304);
    assert_eq!(config.max_messages, 128);
    assert_eq!(config.server_host, "127.0.0.1");
    assert_eq!(config.server_port, 8989);
}

#[test]
fn models_are_listed() {
    let reply = models(&config());
    assert_eq!(reply.status, 200);
    let data = reply.body["data"].as_array().unwrap();
    assert_eq!(reply.body["object"], "list");
    assert_eq!(data.len(), 6);
    assert_eq!(
        data[0].to_string(),
        r#"{"alias_for":"gpt-5.4-mini","id":"codex","object":"model","owned_by":"openai"}"#
    );
    for (entry, id) in data[1..].iter().zip(SUPPORTED_MODELS) {
        assert_eq!(
            entry.to_string(),
            format!(r#"{{"id":"{}","object":"model","owned_by":"openai"}}"#, id)
        );
    }
}
