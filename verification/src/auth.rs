//! Whether the Codex credentials work: what the credential file says, and what turns came to.
use crate::base64;
use crate::error;
use crate::error::Reply;
use crate::json;
use crate::json::{JsonTree, Members};
use crate::text;
use serde_json::Value;
use vstd::prelude::*;
use vstd::string::*;

verus! {

/// A turn that failed on the credentials, and when it did, in Unix seconds.
#[derive(Debug)]
pub struct AuthFailure {
    pub message: String,
    pub at: u64,
}

/// An [`AuthFailure`] with its text as characters.
pub struct AuthFailureView {
    pub message: Seq<char>,
    pub at: u64,
}

impl View for AuthFailure {
    type V = AuthFailureView;

    open spec fn view(&self) -> AuthFailureView {
        AuthFailureView { message: self.message@, at: self.at }
    }
}

impl Clone for AuthFailure {
    fn clone(&self) -> (copy: Self)
        ensures
            copy@ == self@,
    {
        AuthFailure { message: self.message.clone(), at: self.at }
    }
}

/// A failure or none, with its text as characters.
pub open spec fn failure_view(failure: Option<AuthFailure>) -> Option<AuthFailureView> {
    match failure {
        Some(failure) => Some(failure@),
        None => None,
    }
}

/// What turns say of the credentials. A turn that fails on them latches here, and the next turn
/// that succeeds clears the latch.
#[derive(Debug)]
pub struct AuthTracker {
    /// When a turn last succeeded, in Unix seconds; 0 where none has.
    pub last_success: u64,
    /// The failure that is latched.
    pub failure: Option<AuthFailure>,
}

/// An [`AuthTracker`] with its text as characters.
pub struct AuthTrackerView {
    pub last_success: u64,
    pub failure: Option<AuthFailureView>,
}

impl View for AuthTracker {
    type V = AuthTrackerView;

    open spec fn view(&self) -> AuthTrackerView {
        AuthTrackerView { last_success: self.last_success, failure: failure_view(self.failure) }
    }
}

/// How a turn ended, as far as the credentials are concerned.
pub enum TurnOutcome {
    Succeeded,
    Failed(Seq<char>),
}

impl AuthTrackerView {
    /// The tracker after a turn that ended in this way.
    pub open spec fn after(self, outcome: TurnOutcome, now: u64) -> AuthTrackerView {
        match outcome {
            TurnOutcome::Succeeded => self.succeeded(now),
            TurnOutcome::Failed(message) => self.failed(message, now),
        }
    }

    /// The tracker after a turn that succeeded.
    pub open spec fn succeeded(self, now: u64) -> AuthTrackerView {
        AuthTrackerView { last_success: now, failure: None }
    }

    /// The tracker after a turn that failed with this message.
    pub open spec fn failed(self, message: Seq<char>, now: u64) -> AuthTrackerView {
        if concerns_credentials(message) {
            AuthTrackerView { failure: Some(AuthFailureView { message, at: now }), ..self }
        } else {
            self
        }
    }

    /// The tracker without its latch.
    pub open spec fn cleared(self) -> AuthTrackerView {
        AuthTrackerView { failure: None, ..self }
    }

    /// When a turn last succeeded, where one has.
    pub open spec fn success_time(self) -> Option<u64> {
        if self.last_success == 0 {
            None
        } else {
            Some(self.last_success)
        }
    }
}

/// The phrases by which a failed turn tells that the credentials of the account are at fault.
pub const AUTH_MARKERS: [&'static str; 6] = [
    "refresh token",
    "log out and sign in",
    "access token could not be refreshed",
    "invalid_api_key",
    "incorrect api key",
    "codex login",
];

/// The message holds one of the phrases, in upper or lower case. A bare `401` or `unauthorized` is
/// none of them: a tool with a token of its own can fail a turn with those words.
pub open spec fn concerns_credentials(message: Seq<char>) -> bool {
    exists|i: int|
        0 <= i < AUTH_MARKERS@.len() && text::contains_text(
            text::ascii_lower(message),
            #[trigger] AUTH_MARKERS@[i]@,
        )
}

/// Whether a message means that the credentials of the account are bad, rather than that one turn
/// went wrong.
pub fn is_auth_error(message: &str) -> (found: bool)
    ensures
        found == concerns_credentials(message@),
{
    let lower: String = text::to_ascii_lower(message);
    let markers: [&'static str; 6] = AUTH_MARKERS;
    let mut i: usize = 0;
    while i < markers.len()
        invariant
            i <= markers@.len(),
            markers == AUTH_MARKERS,
            lower@ == text::ascii_lower(message@),
            forall|j: int| 0 <= j < i ==> !text::contains_text(lower@, #[trigger] AUTH_MARKERS@[j]@),
        decreases markers@.len() - i,
    {
        if text::contains(lower.as_str(), markers[i]) {
            proof {
                assert(text::contains_text(lower@, AUTH_MARKERS@[i as int]@));
            }
            return true;
        }
        i = i + 1;
    }
    false
}

impl Default for AuthTracker {
    fn default() -> (tracker: Self)
        ensures
            tracker@ == (AuthTrackerView { last_success: 0, failure: None }),
    {
        AuthTracker { last_success: 0, failure: None }
    }
}

impl AuthTracker {
    /// A turn succeeded.
    pub fn record_success(&mut self, now: u64)
        ensures
            final(self)@ == old(self)@.succeeded(now),
    {
        self.last_success = now;
        self.failure = None;
    }

    /// A turn failed with this message. Only a failure that concerns the credentials is latched.
    pub fn record_failure(&mut self, message: &str, now: u64)
        ensures
            final(self)@ == old(self)@.failed(message@, now),
    {
        if !is_auth_error(message) {
            return;
        }
        self.failure = Some(AuthFailure { message: message.to_owned(), at: now });
    }

    /// The failure that is latched.
    pub fn failure(&self) -> (failure: Option<AuthFailure>)
        ensures
            failure_view(failure) == self@.failure,
    {
        match &self.failure {
            Some(failure) => Some(failure.clone()),
            None => None,
        }
    }

    /// Drops the latch.
    pub fn clear(&mut self)
        ensures
            final(self)@ == old(self)@.cleared(),
    {
        self.failure = None;
    }

    /// When a turn last succeeded, where one has.
    pub fn last_success(&self) -> (at: Option<u64>)
        ensures
            at == self@.success_time(),
    {
        if self.last_success == 0 {
            None
        } else {
            Some(self.last_success)
        }
    }
}

/// The health of the credentials, newest evidence first.
#[derive(Debug, Clone)]
pub struct AuthReport {
    /// `ok` | `unknown` | `revoked` | `expired` | `missing` | `unreadable`
    pub status: &'static str,
    /// `chatgpt` | `apikey` | `none`
    pub mode: &'static str,
    pub detail: Option<String>,
    pub expires_at: Option<u64>,
    pub expires_in_seconds: Option<i64>,
    pub last_refresh: Option<String>,
    pub last_success: Option<u64>,
}

/// An [`AuthReport`] with its texts as characters.
pub struct AuthReportView {
    pub status: Seq<char>,
    pub mode: Seq<char>,
    pub detail: Option<Seq<char>>,
    pub expires_at: Option<u64>,
    pub expires_in_seconds: Option<i64>,
    pub last_refresh: Option<Seq<char>>,
    pub last_success: Option<u64>,
}

impl View for AuthReport {
    type V = AuthReportView;

    open spec fn view(&self) -> AuthReportView {
        AuthReportView {
            status: self.status@,
            mode: self.mode@,
            detail: text::opt_view(self.detail),
            expires_at: self.expires_at,
            expires_in_seconds: self.expires_in_seconds,
            last_refresh: text::opt_view(self.last_refresh),
            last_success: self.last_success,
        }
    }
}

impl AuthReportView {
    /// Credentials that work, and credentials of which nothing bad is known.
    pub open spec fn is_healthy(self) -> bool {
        self.status == "ok"@ || self.status == "unknown"@
    }

    /// What an operator is told.
    pub open spec fn advice(self) -> Seq<char> {
        match self.detail {
            Some(detail) => detail,
            None => if self.status == "revoked"@ {
                "codex credentials were rejected; run `codex login`"@
            } else if self.status == "expired"@ {
                "codex access token expired and did not refresh; run `codex login`"@
            } else if self.status == "missing"@ {
                "no codex auth.json found; run `codex login`"@
            } else {
                "codex auth is "@ + self.status
            },
        }
    }

    /// The document that publishes the report, without the fields that are absent.
    pub open spec fn tree(self) -> JsonTree {
        let fields = map![
            "status"@ => JsonTree::Text(self.status),
            "mode"@ => JsonTree::Text(self.mode),
        ];
        let fields = json::with_optional(fields, "detail"@, json::text_tree(self.detail));
        let fields = json::with_optional(
            fields,
            "expires_at"@,
            json::natural_tree(self.expires_at),
        );
        let fields = json::with_optional(
            fields,
            "expires_in_seconds"@,
            match self.expires_in_seconds {
                Some(seconds) => Some(json::integer_tree(seconds as int)),
                None => None,
            },
        );
        let fields = json::with_optional(
            fields,
            "last_refresh"@,
            json::text_tree(self.last_refresh),
        );
        JsonTree::Object(
            json::with_optional(fields, "last_success"@, json::natural_tree(self.last_success)),
        )
    }
}

impl AuthReport {
    /// Whether the gateway may serve with these credentials. `unknown` counts as healthy: it is a
    /// reason to look, not a reason to pull a gateway that may be serving fine.
    pub fn healthy(&self) -> (healthy: bool)
        ensures
            healthy == self@.is_healthy(),
    {
        text::same_text(self.status, "ok") || text::same_text(self.status, "unknown")
    }

    /// What an operator is told.
    pub fn message(&self) -> (message: String)
        ensures
            message@ == self@.advice(),
    {
        match &self.detail {
            Some(detail) => detail.clone(),
            None => {
                if text::same_text(self.status, "revoked") {
                    "codex credentials were rejected; run `codex login`".to_owned()
                } else if text::same_text(self.status, "expired") {
                    "codex access token expired and did not refresh; run `codex login`".to_owned()
                } else if text::same_text(self.status, "missing") {
                    "no codex auth.json found; run `codex login`".to_owned()
                } else {
                    let mut message: String = "codex auth is ".to_owned();
                    message.append(self.status);
                    message
                }
            },
        }
    }

    /// The document that publishes the report, without the fields that are absent.
    pub fn to_value(&self) -> (value: Value)
        ensures
            json::value_tree(value) == self@.tree(),
    {
        let members: Members = Members::new().with("status", json::text(self.status)).with(
            "mode",
            json::text(self.mode),
        );
        let members: Members = match &self.detail {
            Some(detail) => members.with("detail", json::text(detail.as_str())),
            None => members,
        };
        let members: Members = match self.expires_at {
            Some(at) => members.with("expires_at", json::natural(at)),
            None => members,
        };
        let members: Members = match self.expires_in_seconds {
            Some(seconds) => members.with("expires_in_seconds", json::integer(seconds)),
            None => members,
        };
        let members: Members = match &self.last_refresh {
            Some(at) => members.with("last_refresh", json::text(at.as_str())),
            None => members,
        };
        let members: Members = match self.last_success {
            Some(at) => members.with("last_success", json::natural(at)),
            None => members,
        };
        members.build()
    }
}

/// A count of seconds in the largest unit that it fills.
pub open spec fn duration_text(seconds: int) -> Seq<char> {
    if seconds >= 86_400 {
        text::decimal(seconds / 86_400) + "d"@
    } else if seconds >= 3_600 {
        text::decimal(seconds / 3_600) + "h"@
    } else if seconds >= 60 {
        text::decimal(seconds / 60) + "m"@
    } else {
        text::decimal(seconds) + "s"@
    }
}

/// A count of seconds in the largest unit that it fills.
pub fn format_duration(seconds: i64) -> (formatted: String)
    ensures
        formatted@ == duration_text(seconds as int),
{
    if seconds >= 86_400 {
        let mut formatted: String = text::decimal_of(seconds / 86_400);
        formatted.append("d");
        formatted
    } else if seconds >= 3_600 {
        let mut formatted: String = text::decimal_of(seconds / 3_600);
        formatted.append("h");
        formatted
    } else if seconds >= 60 {
        let mut formatted: String = text::decimal_of(seconds / 60);
        formatted.append("m");
        formatted
    } else {
        let mut formatted: String = text::decimal_of(seconds);
        formatted.append("s");
        formatted
    }
}

/// The number that is `number` in 64-bit two's complement, where `number` is within twice that
/// range.
pub open spec fn wrapped(number: int) -> int {
    if number > i64::MAX {
        number - 0x1_0000_0000_0000_0000
    } else if number < i64::MIN {
        number + 0x1_0000_0000_0000_0000
    } else {
        number
    }
}

/// How long a time still lies ahead, in 64-bit two's complement.
fn seconds_until(at: u64, now: u64) -> (seconds: i64)
    ensures
        seconds == wrapped(at - now),
{
    let difference: i128 = at as i128 - now as i128;
    if difference > i64::MAX as i128 {
        (difference - 0x1_0000_0000_0000_0000i128) as i64
    } else if difference < i64::MIN as i128 {
        (difference + 0x1_0000_0000_0000_0000i128) as i64
    } else {
        difference as i64
    }
}

/// The number with its sign turned, in 64-bit two's complement.
fn negated(number: i64) -> (result: i64)
    ensures
        result == wrapped(-number),
{
    if number == i64::MIN {
        number
    } else {
        -number
    }
}

/// The expiry in the payload of a token.
pub open spec fn payload_expiry(payload: JsonTree) -> Option<u64> {
    json::natural_of(json::member(Some(payload), "exp"@))
}

/// The expiry in the payload of a token, where it has one that is a natural number.
pub fn expiry_of(payload: &Value) -> (expires_at: Option<u64>)
    ensures
        expires_at == payload_expiry(json::value_tree(*payload)),
{
    json::get_natural(json::get(Some(payload), "exp"))
}

/// The bytes of the payload of a token: its second part between full stops.
pub open spec fn token_payload(token: Seq<char>) -> Option<Seq<u8>> {
    let parts = text::segments(token, '.');
    if parts.len() > 1 {
        base64::decoded(parts[1])
    } else {
        None
    }
}

/// The expiry of a token.
pub open spec fn token_expiry(token: Seq<char>) -> Option<u64> {
    match token_payload(token) {
        Some(bytes) => match json::json_parse_bytes(bytes) {
            Some(payload) => payload_expiry(payload),
            None => None,
        },
        None => None,
    }
}

/// The expiry of a token, in Unix seconds, where it can be read. Its signature is not looked at:
/// the token comes from our own disk.
pub fn jwt_expiry(token: &str) -> (expires_at: Option<u64>)
    ensures
        expires_at == token_expiry(token@),
{
    let segment: String = match text::second_segment(token, '.') {
        Some(segment) => segment,
        None => {
            return None;
        },
    };
    let payload: Vec<u8> = match base64::decode_base64url(segment.as_str()) {
        Some(payload) => payload,
        None => {
            return None;
        },
    };
    match json::parse_bytes(payload.as_slice()) {
        Ok(value) => expiry_of(&value),
        Err(_) => None,
    }
}

/// What the credential file holds, as far as its health depends on it.
#[derive(Debug)]
pub struct Credentials {
    /// There is an API key, which is not empty.
    pub has_api_key: bool,
    /// The access token, where there is one and it is not empty.
    pub access_token: Option<String>,
    pub last_refresh: Option<String>,
}

/// A [`Credentials`] with its texts as characters.
pub struct CredentialsView {
    pub has_api_key: bool,
    pub access_token: Option<Seq<char>>,
    pub last_refresh: Option<Seq<char>>,
}

impl View for Credentials {
    type V = CredentialsView;

    open spec fn view(&self) -> CredentialsView {
        CredentialsView {
            has_api_key: self.has_api_key,
            access_token: text::opt_view(self.access_token),
            last_refresh: text::opt_view(self.last_refresh),
        }
    }
}

/// A text that is not empty.
pub open spec fn nonempty(text: Option<Seq<char>>) -> Option<Seq<char>> {
    match text {
        Some(text) => if text.len() > 0 {
            Some(text)
        } else {
            None
        },
        None => None,
    }
}

/// What the document in the credential file holds.
pub open spec fn document_credentials(document: JsonTree) -> CredentialsView {
    let tokens = json::member(Some(document), "tokens"@);
    CredentialsView {
        has_api_key: nonempty(json::text_of(json::member(Some(document), "OPENAI_API_KEY"@))) is Some,
        access_token: nonempty(json::text_of(json::member(tokens, "access_token"@))),
        last_refresh: json::text_of(json::member(Some(document), "last_refresh"@)),
    }
}

/// A text, where there is one and it is not empty.
fn keep_nonempty(content: Option<String>) -> (kept: Option<String>)
    ensures
        text::opt_view(kept) == nonempty(text::opt_view(content)),
{
    match content {
        Some(content) => {
            let chars: Vec<char> = text::chars_of(content.as_str());
            if chars.len() > 0 {
                Some(content)
            } else {
                None
            }
        },
        None => None,
    }
}

impl Credentials {
    /// What the document in the credential file holds.
    pub fn read(document: &Value) -> (credentials: Credentials)
        ensures
            credentials@ == document_credentials(json::value_tree(*document)),
    {
        let key: Option<String> = keep_nonempty(
            json::get_text(json::get(Some(document), "OPENAI_API_KEY")),
        );
        let tokens: Option<&Value> = json::get(Some(document), "tokens");
        Credentials {
            has_api_key: key.is_some(),
            access_token: keep_nonempty(json::get_text(json::get(tokens, "access_token"))),
            last_refresh: json::get_text(json::get(Some(document), "last_refresh")),
        }
    }
}

/// A report with a verdict and nothing more.
pub open spec fn verdict(
    status: Seq<char>,
    mode: Seq<char>,
    detail: Option<Seq<char>>,
) -> AuthReportView {
    AuthReportView {
        status,
        mode,
        detail,
        expires_at: None,
        expires_in_seconds: None,
        last_refresh: None,
        last_success: None,
    }
}

/// A report with a verdict and nothing more.
fn verdict_of(status: &'static str, mode: &'static str, detail: Option<String>) -> (report:
    AuthReport)
    ensures
        report@ == verdict(status@, mode@, text::opt_view(detail)),
{
    AuthReport {
        status,
        mode,
        detail,
        expires_at: None,
        expires_in_seconds: None,
        last_refresh: None,
        last_success: None,
    }
}

/// The verdict on a token that can be read.
pub open spec fn token_report(
    expires_at: u64,
    last_refresh: Option<Seq<char>>,
    now: u64,
) -> AuthReportView {
    let left = wrapped(expires_at - now);
    AuthReportView {
        status: if left <= 0 {
            "expired"@
        } else {
            "ok"@
        },
        mode: "chatgpt"@,
        detail: if left <= 0 {
            Some(
                "codex access token expired "@ + duration_text(wrapped(-left))
                    + " ago and did not refresh; run `codex login`"@,
            )
        } else {
            None
        },
        expires_at: Some(expires_at),
        expires_in_seconds: Some(left as i64),
        last_refresh,
        last_success: None,
    }
}

/// The verdict on credentials, given the expiry of their access token as far as it can be read.
/// An API key never expires on its own, so it is enough that there is one.
pub open spec fn credentials_report(
    credentials: CredentialsView,
    expires_at: Option<u64>,
    now: u64,
) -> AuthReportView {
    if credentials.has_api_key {
        AuthReportView {
            last_refresh: credentials.last_refresh,
            ..verdict("ok"@, "apikey"@, None)
        }
    } else if credentials.access_token is None {
        AuthReportView {
            last_refresh: credentials.last_refresh,
            ..verdict(
                "missing"@,
                "none"@,
                Some("auth.json has neither an API key nor an access token"@),
            )
        }
    } else {
        match expires_at {
            None => AuthReportView {
                last_refresh: credentials.last_refresh,
                ..verdict(
                    "unknown"@,
                    "chatgpt"@,
                    Some("access token carries no readable expiry"@),
                )
            },
            Some(expires_at) => token_report(expires_at, credentials.last_refresh, now),
        }
    }
}

/// The verdict on credentials, given the expiry of their access token as far as it can be read.
/// Codex refreshes well before the expiry, so a token that has expired means that it no longer can.
pub fn report_credentials(credentials: &Credentials, expires_at: Option<u64>, now: u64) -> (report:
    AuthReport)
    ensures
        report@ == credentials_report(credentials@, expires_at, now),
{
    let last_refresh: Option<String> = text::copy_optional(&credentials.last_refresh);
    if credentials.has_api_key {
        let mut report: AuthReport = verdict_of("ok", "apikey", None);
        report.last_refresh = last_refresh;
        return report;
    }
    if credentials.access_token.is_none() {
        let mut report: AuthReport = verdict_of(
            "missing",
            "none",
            Some("auth.json has neither an API key nor an access token".to_owned()),
        );
        report.last_refresh = last_refresh;
        return report;
    }
    let expires_at: u64 = match expires_at {
        Some(expires_at) => expires_at,
        None => {
            let mut report: AuthReport = verdict_of(
                "unknown",
                "chatgpt",
                Some("access token carries no readable expiry".to_owned()),
            );
            report.last_refresh = last_refresh;
            return report;
        },
    };
    let expires_in: i64 = seconds_until(expires_at, now);
    if expires_in <= 0 {
        let mut detail: String = "codex access token expired ".to_owned();
        let since: String = format_duration(negated(expires_in));
        detail.append(since.as_str());
        detail.append(" ago and did not refresh; run `codex login`");
        AuthReport {
            status: "expired",
            mode: "chatgpt",
            detail: Some(detail),
            expires_at: Some(expires_at),
            expires_in_seconds: Some(expires_in),
            last_refresh,
            last_success: None,
        }
    } else {
        AuthReport {
            status: "ok",
            mode: "chatgpt",
            detail: None,
            expires_at: Some(expires_at),
            expires_in_seconds: Some(expires_in),
            last_refresh,
            last_success: None,
        }
    }
}

/// The verdict on the document in the credential file.
pub open spec fn document_report(document: JsonTree, now: u64) -> AuthReportView {
    let credentials = document_credentials(document);
    credentials_report(
        credentials,
        match credentials.access_token {
            Some(token) => token_expiry(token),
            None => None,
        },
        now,
    )
}

/// The verdict on the document in the credential file.
pub fn report_document(document: &Value, now: u64) -> (report: AuthReport)
    ensures
        report@ == document_report(json::value_tree(*document), now),
{
    let credentials: Credentials = Credentials::read(document);
    let expires_at: Option<u64> = match &credentials.access_token {
        Some(token) => jwt_expiry(token.as_str()),
        None => None,
    };
    report_credentials(&credentials, expires_at, now)
}

/// The verdict on the contents of the credential file, where it could be read.
pub open spec fn file_report(contents: Option<Seq<char>>, now: u64) -> AuthReportView {
    match contents {
        None => verdict("missing"@, "none"@, Some("auth.json is unreadable or absent"@)),
        Some(contents) => match json::json_parse(contents) {
            None => verdict("unreadable"@, "none"@, Some("auth.json is not valid JSON"@)),
            Some(document) => document_report(document, now),
        },
    }
}

/// The verdict on the contents of the credential file, where it could be read. The report goes to
/// clients, so it does not say where the file is.
pub fn inspect_auth_file(contents: Option<&str>, now: u64) -> (report: AuthReport)
    ensures
        report@ == file_report(text::opt_str_view(contents), now),
{
    let contents: &str = match contents {
        Some(contents) => contents,
        None => {
            return verdict_of(
                "missing",
                "none",
                Some("auth.json is unreadable or absent".to_owned()),
            );
        },
    };
    match json::parse_text(contents) {
        Ok(document) => report_document(&document, now),
        Err(_) => verdict_of(
            "unreadable",
            "none",
            Some("auth.json is not valid JSON".to_owned()),
        ),
    }
}

/// The credential file as it was found, and when that was.
#[derive(Debug)]
pub struct AuthEvidence {
    /// What the file holds, where it could be read.
    pub contents: Option<String>,
    /// When the file was last written, in Unix seconds, where that is known.
    pub modified_at: Option<u64>,
    /// The time of the inspection, in Unix seconds.
    pub now: u64,
}

/// The file was written after `since`.
pub open spec fn modified_after(modified_at: Option<u64>, since: u64) -> bool {
    match modified_at {
        Some(at) => at > since,
        None => false,
    }
}

/// Whether the credential file was written after `since`.
pub fn auth_file_modified_after(modified_at: Option<u64>, since: u64) -> (after: bool)
    ensures
        after == modified_after(modified_at, since),
{
    match modified_at {
        Some(at) => at > since,
        None => false,
    }
}

/// The latch of a tracker still stands against the credential file.
pub open spec fn latch_stands(evidence: AuthEvidence, tracker: AuthTrackerView) -> bool {
    match tracker.failure {
        Some(failure) => !modified_after(evidence.modified_at, failure.at),
        None => false,
    }
}

/// The verdict on the credentials: a latch that stands outranks what the file says.
pub open spec fn inspection(evidence: AuthEvidence, tracker: AuthTrackerView) -> AuthReportView {
    let report = AuthReportView {
        last_success: tracker.success_time(),
        ..file_report(text::opt_view(evidence.contents), evidence.now)
    };
    if latch_stands(evidence, tracker) {
        AuthReportView {
            status: "revoked"@,
            detail: Some(tracker.failure->Some_0.message),
            ..report
        }
    } else {
        report
    }
}

/// The tracker after an inspection: a latch that does not stand is dropped.
pub open spec fn inspected(evidence: AuthEvidence, tracker: AuthTrackerView) -> AuthTrackerView {
    if latch_stands(evidence, tracker) {
        tracker
    } else {
        tracker.cleared()
    }
}

/// The verdict on the credentials. A turn that was rejected outranks what the file says, unless
/// the file was written after it: a new login has then already addressed the failure, and the
/// latch is dropped without waiting for a turn to succeed.
pub fn inspect_auth(evidence: &AuthEvidence, tracker: &mut AuthTracker) -> (report: AuthReport)
    ensures
        report@ == inspection(*evidence, old(tracker)@),
        final(tracker)@ == inspected(*evidence, old(tracker)@),
{
    let contents: Option<&str> = match &evidence.contents {
        Some(contents) => Some(contents.as_str()),
        None => None,
    };
    let mut report: AuthReport = inspect_auth_file(contents, evidence.now);
    report.last_success = tracker.last_success();
    if let Some(failure) = tracker.failure() {
        if auth_file_modified_after(evidence.modified_at, failure.at) {
            tracker.clear();
        } else {
            report.status = "revoked";
            report.detail = Some(failure.message);
        }
    }
    report
}

/// The reply to a liveness probe, which nothing can fail.
pub open spec fn health_tree() -> JsonTree {
    JsonTree::Object(map!["status"@ => JsonTree::Text("ok"@)])
}

/// The reply to a liveness probe.
pub fn health() -> (reply: Reply)
    ensures
        reply@ == (error::ReplyView { status: error::OK, body: health_tree() }),
{
    Reply { status: error::OK, body: Members::new().with("status", json::text("ok")).build() }
}

/// The reply of a gateway that is ready, given the health of its credentials.
pub open spec fn ready_tree(report: AuthReportView) -> JsonTree {
    JsonTree::Object(
        map![
            "status"@ => JsonTree::Text("ready"@),
            "backend"@ => JsonTree::Text("app-server"@),
            "auth"@ => report.tree(),
        ],
    )
}

/// The reply to a readiness probe, given whether the backend is up and the health of the
/// credentials.
pub open spec fn readiness(backend_ready: bool, report: AuthReportView) -> error::ReplyView {
    if !backend_ready {
        error::error_reply(
            error::SERVICE_UNAVAILABLE,
            "codex app-server is restarting"@,
            "backend_unavailable"@,
            None,
            None,
        )
    } else if !report.is_healthy() {
        error::error_reply(
            error::SERVICE_UNAVAILABLE,
            report.advice(),
            "invalid_authentication"@,
            None,
            None,
        )
    } else {
        error::ReplyView { status: error::OK, body: ready_tree(report) }
    }
}

/// The reply to a readiness probe. A live backend is necessary but not sufficient: it starts with
/// dead credentials too, so the credentials must be healthy as well.
pub fn ready(backend_ready: bool, evidence: &AuthEvidence, tracker: &mut AuthTracker) -> (reply:
    Reply)
    ensures
        reply@ == readiness(backend_ready, inspection(*evidence, old(tracker)@)),
        final(tracker)@ == if backend_ready {
            inspected(*evidence, old(tracker)@)
        } else {
            old(tracker)@
        },
{
    if !backend_ready {
        return error::error_response(
            error::SERVICE_UNAVAILABLE,
            "codex app-server is restarting",
            "backend_unavailable",
            None,
            None,
        );
    }
    let auth: AuthReport = inspect_auth(evidence, tracker);
    if !auth.healthy() {
        let message: String = auth.message();
        return error::error_response(
            error::SERVICE_UNAVAILABLE,
            message.as_str(),
            "invalid_authentication",
            None,
            None,
        );
    }
    let body: Value = Members::new().with("status", json::text("ready")).with(
        "backend",
        json::text("app-server"),
    ).with("auth", auth.to_value()).build();
    Reply { status: error::OK, body }
}

/// The reply to a probe of the credentials, given their health.
pub open spec fn auth_health(report: AuthReportView) -> error::ReplyView {
    error::ReplyView {
        status: if report.is_healthy() {
            error::OK
        } else {
            error::SERVICE_UNAVAILABLE
        },
        body: report.tree(),
    }
}

/// The reply to a probe of the credentials.
pub fn health_auth(evidence: &AuthEvidence, tracker: &mut AuthTracker) -> (reply: Reply)
    ensures
        reply@ == auth_health(inspection(*evidence, old(tracker)@)),
        final(tracker)@ == inspected(*evidence, old(tracker)@),
{
    let auth: AuthReport = inspect_auth(evidence, tracker);
    let status: u16 = if auth.healthy() {
        error::OK
    } else {
        error::SERVICE_UNAVAILABLE
    };
    Reply { status, body: auth.to_value() }
}

/// A tracker after a sequence of turns, each with the time of its end.
pub open spec fn after_turns(turns: Seq<(TurnOutcome, u64)>) -> AuthTrackerView
    decreases turns.len(),
{
    if turns.len() == 0 {
        AuthTrackerView { last_success: 0, failure: None }
    } else {
        after_turns(turns.drop_last()).after(turns.last().0, turns.last().1)
    }
}

/// A turn failed on the credentials.
pub open spec fn rejected(turn: (TurnOutcome, u64)) -> bool {
    turn.0 matches TurnOutcome::Failed(message) && concerns_credentials(message)
}

/// A turn failed on the credentials, and none has succeeded since.
pub open spec fn is_unanswered(turns: Seq<(TurnOutcome, u64)>, i: int) -> bool {
    &&& 0 <= i < turns.len()
    &&& rejected(turns[i])
    &&& forall|j: int| i < j < turns.len() ==> !((#[trigger] turns[j]).0 is Succeeded)
}

/// A turn was the last to fail on the credentials, and none has succeeded since.
pub open spec fn is_standing(turns: Seq<(TurnOutcome, u64)>, i: int) -> bool {
    &&& is_unanswered(turns, i)
    &&& forall|j: int| i < j < turns.len() ==> !rejected(#[trigger] turns[j])
}

proof fn lemma_unanswered_is_latched(turns: Seq<(TurnOutcome, u64)>, i: int)
    requires
        is_unanswered(turns, i),
    ensures
        after_turns(turns).failure is Some,
    decreases turns.len(),
{
    let n = turns.len() - 1;
    if i < n {
        assert(!(turns[n].0 is Succeeded));
        assert(is_unanswered(turns.drop_last(), i));
        lemma_unanswered_is_latched(turns.drop_last(), i);
    }
}

proof fn lemma_standing_is_latched(turns: Seq<(TurnOutcome, u64)>, i: int)
    requires
        is_standing(turns, i),
    ensures
        after_turns(turns).failure == Some(
            AuthFailureView { message: turns[i].0->Failed_0, at: turns[i].1 },
        ),
    decreases turns.len(),
{
    let n = turns.len() - 1;
    if i < n {
        assert(!(turns[n].0 is Succeeded) && !rejected(turns[n]));
        assert(is_standing(turns.drop_last(), i));
        lemma_standing_is_latched(turns.drop_last(), i);
    }
}

proof fn lemma_latched_is_unanswered(turns: Seq<(TurnOutcome, u64)>) -> (i: int)
    requires
        after_turns(turns).failure is Some,
    ensures
        is_unanswered(turns, i),
    decreases turns.len(),
{
    let n = turns.len() - 1;
    if rejected(turns[n]) {
        n
    } else {
        let i = lemma_latched_is_unanswered(turns.drop_last());
        assert(turns[i] == turns.drop_last()[i]);
        assert forall|j: int| i < j < turns.len() implies !((#[trigger] turns[j]).0 is Succeeded) by {
            if j < n {
                assert(turns[j] == turns.drop_last()[j]);
            }
        }
        i
    }
}

/// A failure is latched exactly where a turn failed on the credentials and none has succeeded
/// since. It is the last such failure. Failures of any other kind leave no trace.
pub proof fn the_latch_holds_the_last_rejection(turns: Seq<(TurnOutcome, u64)>)
    ensures
        after_turns(turns).failure is Some <==> exists|i: int| is_unanswered(turns, i),
        forall|i: int| #[trigger]
            is_standing(turns, i) ==> after_turns(turns).failure == Some(
                AuthFailureView { message: turns[i].0->Failed_0, at: turns[i].1 },
            ),
{
    if after_turns(turns).failure is Some {
        let i = lemma_latched_is_unanswered(turns);
        assert(is_unanswered(turns, i));
    }
    assert forall|i: int| is_unanswered(turns, i) implies after_turns(turns).failure is Some by {
        lemma_unanswered_is_latched(turns, i);
    }
    assert forall|i: int| #[trigger] is_standing(turns, i) implies after_turns(turns).failure == Some(
        AuthFailureView { message: turns[i].0->Failed_0, at: turns[i].1 },
    ) by {
        lemma_standing_is_latched(turns, i);
    }
}

proof fn lemma_statuses_differ()
    ensures
        "revoked"@ != "ok"@,
        "revoked"@ != "unknown"@,
        "expired"@ != "ok"@,
        "expired"@ != "unknown"@,
        "missing"@ != "ok"@,
        "missing"@ != "unknown"@,
        "unreadable"@ != "ok"@,
        "unreadable"@ != "unknown"@,
{
    reveal_strlit("ok");
    reveal_strlit("unknown");
    reveal_strlit("revoked");
    reveal_strlit("expired");
    reveal_strlit("missing");
    reveal_strlit("unreadable");
    assert("unreadable"@.len() == 10 && "ok"@.len() == 2 && "unknown"@.len() == 7);
    assert("revoked"@.len() == 7 && "expired"@.len() == 7 && "missing"@.len() == 7);
    assert("revoked"@[0] == 'r' && "expired"@[0] == 'e' && "missing"@[0] == 'm');
    assert("unknown"@[0] == 'u');
}

/// The readiness probe succeeds exactly where the backend is up and the credentials are healthy.
pub proof fn readiness_needs_backend_and_credentials(backend_ready: bool, report: AuthReportView)
    ensures
        readiness(backend_ready, report).status == error::OK <==> backend_ready
            && report.is_healthy(),
        readiness(backend_ready, report).status == error::OK || readiness(
            backend_ready,
            report,
        ).status == error::SERVICE_UNAVAILABLE,
{
}

/// Once a turn was rejected, the readiness probe and the probe of the credentials fail, however
/// well the backend and the file look, until a turn succeeds or the file is written anew.
pub proof fn a_rejected_turn_fails_the_probes(
    evidence: AuthEvidence,
    tracker: AuthTrackerView,
    backend_ready: bool,
)
    requires
        tracker.failure is Some,
        !modified_after(evidence.modified_at, tracker.failure->Some_0.at),
    ensures
        !inspection(evidence, tracker).is_healthy(),
        readiness(backend_ready, inspection(evidence, tracker)).status
            == error::SERVICE_UNAVAILABLE,
        auth_health(inspection(evidence, tracker)).status == error::SERVICE_UNAVAILABLE,
        inspected(evidence, tracker) == tracker,
{
    lemma_statuses_differ();
}

/// A credential file that was written after the failure brings the probes back to what the file
/// says, without a turn that succeeds, and drops the latch itself.
pub proof fn a_new_login_recovers(evidence: AuthEvidence, tracker: AuthTrackerView)
    requires
        tracker.failure is Some,
        modified_after(evidence.modified_at, tracker.failure->Some_0.at),
    ensures
        inspection(evidence, tracker) == inspection(evidence, tracker.cleared()),
        inspection(evidence, tracker).is_healthy() == file_report(
            text::opt_view(evidence.contents),
            evidence.now,
        ).is_healthy(),
        inspected(evidence, tracker).failure is None,
        inspected(evidence, tracker).last_success == tracker.last_success,
{
}

/// A turn that succeeds brings the probes back to what the file says.
pub proof fn a_successful_turn_recovers(
    evidence: AuthEvidence,
    tracker: AuthTrackerView,
    now: u64,
)
    ensures
        inspection(evidence, tracker.succeeded(now)).is_healthy() == file_report(
            text::opt_view(evidence.contents),
            evidence.now,
        ).is_healthy(),
        inspected(evidence, tracker.succeeded(now)) == tracker.succeeded(now),
        now > 0 ==> inspection(evidence, tracker.succeeded(now)).last_success == Some(now),
{
}

/// The verdicts and the modes that a report can have.
pub proof fn reports_have_known_verdicts(evidence: AuthEvidence, tracker: AuthTrackerView)
    ensures
        ({
            let status = inspection(evidence, tracker).status;
            ||| status == "ok"@
            ||| status == "unknown"@
            ||| status == "revoked"@
            ||| status == "expired"@
            ||| status == "missing"@
            ||| status == "unreadable"@
        }),
        ({
            let mode = inspection(evidence, tracker).mode;
            ||| mode == "chatgpt"@
            ||| mode == "apikey"@
            ||| mode == "none"@
        }),
{
}

/// A file that is absent, or that holds no JSON, never counts as healthy.
pub proof fn an_unreadable_file_is_unhealthy(contents: Option<Seq<char>>, now: u64)
    requires
        contents is None || json::json_parse(contents->Some_0) is None,
    ensures
        !file_report(contents, now).is_healthy(),
{
    lemma_statuses_differ();
}

/// A report tells nothing of an access token but when it expires, and nothing of an API key but
/// that there is one.
pub proof fn reports_reveal_no_credentials(
    a: CredentialsView,
    b: CredentialsView,
    expires_at: Option<u64>,
    now: u64,
)
    requires
        a.has_api_key == b.has_api_key,
        a.access_token is Some == b.access_token is Some,
        a.last_refresh == b.last_refresh,
    ensures
        credentials_report(a, expires_at, now) == credentials_report(b, expires_at, now),
{
}

/// A token is healthy up to the second before its expiry and unhealthy from then on.
pub proof fn tokens_expire_on_time(expires_at: u64, last_refresh: Option<Seq<char>>, now: u64)
    requires
        expires_at <= i64::MAX,
        now <= i64::MAX,
    ensures
        token_report(expires_at, last_refresh, now).is_healthy() == (now < expires_at),
        token_report(expires_at, last_refresh, now).expires_in_seconds == Some(
            (expires_at - now) as i64,
        ),
{
    lemma_statuses_differ();
}

/// The payload of a token is read back from the token, whatever its header and its signature are.
pub proof fn payloads_are_read_back(header: Seq<char>, payload: Seq<u8>, signature: Seq<char>)
    requires
        !header.contains('.'),
    ensures
        token_payload(header + seq!['.'] + base64::encoded(payload) + seq!['.'] + signature) == Some(
            payload,
        ),
{
    let encoded = base64::encoded(payload);
    let none = Seq::<char>::empty();
    let opened = header + seq!['.'];
    let closed = opened + encoded + seq!['.'];
    assert(!encoded.contains('.')) by {
        assert forall|j: int| 0 <= j < encoded.len() implies encoded[j] != '.' by {
            assert(encoded[j] == base64::symbol(base64::sextet_at(payload, j)));
        }
    }
    text::lemma_one_segment(header, '.');
    assert(opened.drop_last() =~= header);
    assert(text::segments(opened, '.') =~= seq![header, none]);
    text::lemma_more_segments(opened, encoded, '.');
    assert(none + encoded =~= encoded);
    assert(text::segments(opened + encoded, '.') =~= seq![header, encoded]);
    assert(closed.drop_last() =~= opened + encoded);
    assert(text::segments(closed, '.') =~= seq![header, encoded, none]);
    text::lemma_more_segments(closed, signature, '.');
    base64::decoding_reverses_encoding(payload, none);
    assert(encoded + none =~= encoded);
    assert(text::segments(closed + signature, '.')[1] == encoded);
}

} // verus!
