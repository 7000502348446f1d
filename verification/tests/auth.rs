use codex_openai_gateway::auth::{
    auth_file_modified_after, expiry_of, format_duration, health, health_auth, inspect_auth,
    inspect_auth_file, is_auth_error, jwt_expiry, ready, report_credentials, report_document,
    Credentials,
};
use codex_openai_gateway::{AuthEvidence, AuthReport, AuthTracker};
use serde_json::Value;

const NOW: u64 = 1_784_569_412;

fn segment(raw: &str) -> String {
    const ALPHABET: &[u8] = b"ABCDEFGHIJKLMNOPQRSTUVWXYZabcdefghijklmnopqrstuvwxyz0123456789-_";
    let bytes = raw.as_bytes();
    let mut out = String::new();
    for chunk in bytes.chunks(3) {
        let mut buffer = [0u8; 3];
        buffer[..chunk.len()].copy_from_slice(chunk);
        let packed = u32::from_be_bytes([0, buffer[0], buffer[1], buffer[2]]);
        for index in 0..chunk.len() + 1 {
            let shift = 18 - index * 6;
            out.push(ALPHABET[((packed >> shift) & 0x3f) as usize] as char);
        }
    }
    out
}

/// An unsigned token whose `exp` sits `offset` seconds from now.
fn token_expiring_in(offset: i64) -> String {
    let exp = NOW as i64 + offset;
    format!(
        "header.{}.signature",
        segment(&format!(r#"{{"exp":{}}}"#, exp))
    )
}

fn chatgpt(offset: i64) -> String {
    format!(
        r#"{{"auth_mode":"chatgpt","tokens":{{"access_token":"{}"}}}}"#,
        token_expiring_in(offset)
    )
}

fn evidence(contents: &str, modified_at: u64) -> AuthEvidence {
    AuthEvidence {
        contents: Some(contents.to_string()),
        modified_at: Some(modified_at),
        now: NOW,
    }
}

fn parse(text: &str) -> Value {
    serde_json::from_str(text).unwrap()
}

#[test]
fn auth_file_check_catches_a_token_that_stopped_refreshing() {
    let contents = format!(
        r#"{{"auth_mode":"chatgpt","tokens":{{"access_token":"{}"}},"last_refresh":"2026-07-20T17:43:32Z"}}"#,
        token_expiring_in(-172_800)
    );
    let report = inspect_auth_file(Some(&contents), NOW);
    assert_eq!(report.status, "expired");
    assert_eq!(report.mode, "chatgpt");
    assert!(!report.healthy());
    assert_eq!(report.last_refresh.as_deref(), Some("2026-07-20T17:43:32Z"));
    assert!(report.detail.unwrap().contains("2d"));
}

#[test]
fn auth_file_check_passes_a_live_token_and_an_api_key() {
    let report = inspect_auth_file(Some(&chatgpt(86_400)), NOW);
    assert_eq!(report.status, "ok");
    assert!(report.healthy());
    assert!(report.expires_in_seconds.unwrap() > 0);

    // API keys carry no expiry, so presence alone is the whole check.
    let report = inspect_auth_file(
        Some(r#"{"auth_mode":"apikey","OPENAI_API_KEY":"sk-test"}"#),
        NOW,
    );
    assert_eq!(report.status, "ok");
    assert_eq!(report.mode, "apikey");
    assert!(report.healthy());

    // A missing file is a hard fail, and so is one that is not JSON.
    let absent = inspect_auth_file(None, NOW);
    assert_eq!(absent.status, "missing");
    assert!(!absent.healthy());
    assert!(!inspect_auth_file(Some("not json at all"), NOW).healthy());
}

#[test]
fn auth_tracker_latches_credential_failures_but_ignores_ordinary_ones() {
    let mut tracker = AuthTracker::default();
    assert!(tracker.failure().is_none());
    assert!(tracker.last_success().is_none());

    // A normal turn failure must not take the gateway out of rotation.
    tracker.record_failure("model produced no output", NOW);
    tracker.record_failure("request timed out", NOW);
    assert!(tracker.failure().is_none());

    // A tool with a token of its own can fail a turn with a 401 that says nothing about the
    // account.
    tracker.record_failure("mcp server n8n-mcp returned 401 Unauthorized", NOW);
    assert!(
        tracker.failure().is_none(),
        "a tool-level 401 must not mark account credentials dead"
    );

    tracker.record_failure(
        "Your access token could not be refreshed because your refresh token was revoked.",
        NOW,
    );
    let failure = tracker.failure().expect("credential failure latches");
    assert!(failure.message.contains("refresh token was revoked"));
    assert_eq!(failure.at, NOW);

    // Recovery is self-healing: the next good turn clears the latch.
    tracker.record_success(NOW);
    assert!(tracker.failure().is_none());
    assert!(tracker.last_success().is_some());
}

#[test]
fn ready_and_health_auth_go_red_once_credentials_are_rejected() {
    let mut tracker = AuthTracker::default();
    let evidence = evidence(&chatgpt(86_400), NOW);

    // Healthy credentials: liveness, readiness and the probe of the credentials all pass.
    assert_eq!(health().status, 200);
    assert_eq!(ready(true, &evidence, &mut tracker).status, 200);
    assert_eq!(health_auth(&evidence, &mut tracker).status, 200);

    // A turn rejected on credentials flips readiness though the pool is alive.
    tracker.record_failure(
        "Your refresh token was revoked. Please log out and sign in again.",
        NOW,
    );
    assert_eq!(health().status, 200, "liveness is unaffected");
    assert_eq!(ready(true, &evidence, &mut tracker).status, 503);
    assert_eq!(health_auth(&evidence, &mut tracker).status, 503);

    tracker.record_success(NOW);
    assert_eq!(ready(true, &evidence, &mut tracker).status, 200);
}

#[test]
fn re_login_clears_the_latch_without_needing_a_successful_turn() {
    let mut tracker = AuthTracker::default();

    // The credentials are older than the failure, so the latch stands.
    tracker.record_failure("refresh token was revoked; run `codex login`", NOW - 60);
    assert!(!inspect_auth(&evidence(&chatgpt(86_400), NOW - 120), &mut tracker).healthy());
    assert!(tracker.failure().is_some());

    // A new login rewrites the credential file.
    assert!(inspect_auth(&evidence(&chatgpt(86_400), NOW), &mut tracker).healthy());
    assert!(
        tracker.failure().is_none(),
        "the latch itself must be dropped, not just reported around"
    );
}

#[test]
fn a_latch_of_the_same_second_stands() {
    assert!(!auth_file_modified_after(Some(NOW), NOW));
    assert!(auth_file_modified_after(Some(NOW + 1), NOW));
    assert!(!auth_file_modified_after(None, 0));

    let mut tracker = AuthTracker::default();
    tracker.record_failure("codex login", NOW);
    let report = inspect_auth(&evidence(&chatgpt(86_400), NOW), &mut tracker);
    assert_eq!(report.status, "revoked");
    assert_eq!(report.mode, "chatgpt");
    assert_eq!(report.detail.as_deref(), Some("codex login"));
    assert_eq!(report.expires_in_seconds, Some(86_400));
    tracker.clear();
    assert!(tracker.failure().is_none());
}

#[test]
fn markers_are_found_in_any_case() {
    for message in [
        "Refresh Token expired",
        "please LOG OUT and sign in",
        "the access token could not be refreshed",
        "code: invalid_api_key",
        "Incorrect API key provided",
        "run `codex login`",
    ] {
        assert!(is_auth_error(message), "{}", message);
    }
    for message in ["", "401", "unauthorized", "refresh  token", "codexlogin"] {
        assert!(!is_auth_error(message), "{}", message);
    }
}

#[test]
fn ordinary_failures_keep_an_earlier_latch() {
    let mut tracker = AuthTracker::default();
    tracker.record_failure("incorrect api key", 5);
    tracker.record_failure("boom", 6);
    assert_eq!(tracker.failure().unwrap().at, 5);
    tracker.record_failure("codex login", 7);
    assert_eq!(tracker.failure().unwrap().at, 7);
    assert_eq!(tracker.failure().unwrap().message, "codex login");
    tracker.record_success(0);
    assert!(tracker.last_success().is_none());
    tracker.record_success(9);
    assert_eq!(tracker.last_success(), Some(9));
}

#[test]
fn durations_are_told_in_their_largest_unit() {
    for (seconds, text) in [
        (0, "0s"),
        (59, "59s"),
        (60, "1m"),
        (3_599, "59m"),
        (3_600, "1h"),
        (86_399, "23h"),
        (86_400, "1d"),
        (172_800, "2d"),
        (-5, "-5s"),
        (i64::MIN, "-9223372036854775808s"),
        (i64::MAX, "106751991167300d"),
    ] {
        assert_eq!(format_duration(seconds), text);
    }
}

#[test]
fn expiries_are_read_from_tokens() {
    assert_eq!(jwt_expiry(&token_expiring_in(5)), Some(NOW + 5));
    assert_eq!(jwt_expiry(&format!("h.{}", segment(r#"{"exp":7}"#))), Some(7));
    assert_eq!(jwt_expiry(&format!("h.{}==.s", segment(r#"{"exp":77}"#))), Some(77));
    assert_eq!(jwt_expiry("no dots"), None);
    assert_eq!(jwt_expiry("a.!!.b"), None);
    assert_eq!(jwt_expiry(&format!("h.{}.s", segment("not json"))), None);
    assert_eq!(jwt_expiry(&format!("h.{}.s", segment(r#"{"exp":"7"}"#))), None);
    assert_eq!(jwt_expiry(&format!("h.{}.s", segment(r#"{"exp":-7}"#))), None);
    assert_eq!(expiry_of(&parse(r#"{"exp":7}"#)), Some(7));
    assert_eq!(expiry_of(&parse("[7]")), None);
}

#[test]
fn credentials_are_read_from_documents() {
    let credentials = Credentials::read(&parse(
        r#"{"OPENAI_API_KEY":"","tokens":{"access_token":"t"},"last_refresh":"r"}"#,
    ));
    assert!(!credentials.has_api_key);
    assert_eq!(credentials.access_token.as_deref(), Some("t"));
    assert_eq!(credentials.last_refresh.as_deref(), Some("r"));
    let credentials = Credentials::read(&parse(
        r#"{"OPENAI_API_KEY":"k","tokens":{"access_token":""},"last_refresh":3}"#,
    ));
    assert!(credentials.has_api_key);
    assert!(credentials.access_token.is_none());
    assert!(credentials.last_refresh.is_none());
}

fn with_token(expires_at: Option<u64>, now: u64) -> AuthReport {
    report_credentials(
        &Credentials {
            has_api_key: false,
            access_token: Some("t".to_string()),
            last_refresh: None,
        },
        expires_at,
        now,
    )
}

#[test]
fn tokens_expire_on_the_second() {
    let live = with_token(Some(101), 100);
    assert_eq!((live.status, live.expires_in_seconds), ("ok", Some(1)));
    assert_eq!(live.detail, None);
    let dead = with_token(Some(100), 100);
    assert_eq!((dead.status, dead.expires_in_seconds), ("expired", Some(0)));
    assert_eq!(
        dead.detail.as_deref(),
        Some("codex access token expired 0s ago and did not refresh; run `codex login`")
    );
    assert_eq!(dead.expires_at, Some(100));
    assert_eq!(
        with_token(Some(100), 3_700).message(),
        "codex access token expired 1h ago and did not refresh; run `codex login`"
    );
    // Far beyond any real time the difference wraps around.
    assert_eq!(
        with_token(Some(u64::MAX), 9).expires_in_seconds,
        Some(-10)
    );
    assert_eq!(
        with_token(Some(1 << 63), 9).expires_in_seconds,
        Some(i64::MAX - 8)
    );
    assert_eq!(
        with_token(Some((1 << 63) + 9), 9).expires_in_seconds,
        Some(i64::MIN)
    );
}

#[test]
fn tokens_without_an_expiry_are_unknown_and_healthy() {
    let report = with_token(None, 100);
    assert_eq!((report.status, report.mode), ("unknown", "chatgpt"));
    assert_eq!(
        report.detail.as_deref(),
        Some("access token carries no readable expiry")
    );
    assert!(report.healthy());
    let report = report_document(&parse(r#"{"tokens":{"access_token":"opaque"}}"#), NOW);
    assert_eq!(report.status, "unknown");
}

#[test]
fn empty_credentials_are_missing() {
    let report = report_document(&parse(r#"{"last_refresh":"r"}"#), NOW);
    assert_eq!((report.status, report.mode), ("missing", "none"));
    assert_eq!(report.last_refresh.as_deref(), Some("r"));
    assert_eq!(
        report.detail.as_deref(),
        Some("auth.json has neither an API key nor an access token")
    );
}

#[test]
fn reports_do_not_say_where_the_file_is() {
    let absent = inspect_auth_file(None, NOW);
    assert_eq!(
        absent.to_value().to_string(),
        r#"{"detail":"auth.json is unreadable or absent","mode":"none","status":"missing"}"#
    );
    let garbled = inspect_auth_file(Some("{"), NOW);
    assert_eq!(garbled.status, "unreadable");
    assert_eq!(garbled.message(), "auth.json is not valid JSON");
}

#[test]
fn reports_are_written_without_absent_fields() {
    let report = AuthReport {
        status: "ok",
        mode: "chatgpt",
        detail: None,
        expires_at: Some(8),
        expires_in_seconds: Some(-3),
        last_refresh: Some("r".to_string()),
        last_success: Some(4),
    };
    assert_eq!(
        report.to_value().to_string(),
        r#"{"expires_at":8,"expires_in_seconds":-3,"last_refresh":"r","last_success":4,"mode":"chatgpt","status":"ok"}"#
    );
}

#[test]
fn messages_fall_back_on_the_verdict() {
    let told = |status| {
        AuthReport {
            status,
            mode: "none",
            detail: None,
            expires_at: None,
            expires_in_seconds: None,
            last_refresh: None,
            last_success: None,
        }
        .message()
    };
    assert_eq!(
        told("revoked"),
        "codex credentials were rejected; run `codex login`"
    );
    assert_eq!(
        told("expired"),
        "codex access token expired and did not refresh; run `codex login`"
    );
    assert_eq!(told("missing"), "no codex auth.json found; run `codex login`");
    assert_eq!(told("unreadable"), "codex auth is unreadable");
}

#[test]
fn probes_are_answered() {
    let mut tracker = AuthTracker::default();
    assert_eq!(health().body.to_string(), r#"{"status":"ok"}"#);
    let live = evidence(r#"{"OPENAI_API_KEY":"k"}"#, NOW);
    assert_eq!(
        ready(true, &live, &mut tracker).body.to_string(),
        r#"{"auth":{"mode":"apikey","status":"ok"},"backend":"app-server","status":"ready"}"#
    );
    assert_eq!(
        health_auth(&live, &mut tracker).body.to_string(),
        r#"{"mode":"apikey","status":"ok"}"#
    );

    // Without a backend the latch is not even looked at.
    tracker.record_failure("codex login", 1);
    let restarting = ready(false, &live, &mut tracker);
    assert_eq!(restarting.status, 503);
    assert_eq!(
        restarting.body.to_string(),
        r#"{"error":{"code":null,"message":"codex app-server is restarting","param":null,"type":"backend_unavailable"}}"#
    );
    assert!(tracker.failure().is_some());

    let absent = AuthEvidence {
        contents: None,
        modified_at: None,
        now: NOW,
    };
    tracker.clear();
    assert_eq!(
        ready(true, &absent, &mut tracker).body.to_string(),
        r#"{"error":{"code":null,"message":"auth.json is unreadable or absent","param":null,"type":"invalid_authentication"}}"#
    );
}
