//! What the state of the credentials depends on, and what is told of it.
use crate::auth;
use crate::auth::{
    AuthEvidence, AuthFailureView, AuthReportView, AuthTrackerView, CredentialsView, TurnOutcome,
};
use crate::base64;
use crate::json;
use crate::json::JsonTree;
use crate::laws::answers;
use crate::laws::conversations;
use crate::laws::texts;
use crate::laws::words;
use crate::text;
use vstd::prelude::*;

verus! {

/// Whatever else a payload holds, its expiry is the number under `exp`.
pub proof fn the_expiry_is_the_number_under_exp(members: Map<Seq<char>, JsonTree>, n: u64)
    requires
        members.contains_key("exp"@),
        members["exp"@] == JsonTree::Natural(n),
    ensures
        auth::payload_expiry(JsonTree::Object(members)) == Some(n),
{
}

/// A payload without a natural number under `exp` has no expiry, and neither has one that is no
/// object.
pub proof fn payloads_without_exp_have_no_expiry(
    payload: JsonTree,
    members: Map<Seq<char>, JsonTree>,
)
    ensures
        !members.contains_key("exp"@) ==> auth::payload_expiry(JsonTree::Object(members)) is None,
        members.contains_key("exp"@) && !(members["exp"@] is Natural) ==> auth::payload_expiry(
            JsonTree::Object(members),
        ) is None,
        !(payload is Object) ==> auth::payload_expiry(payload) is None,
{
}

/// The payload of a token is what stands between its first dot and its second, or its end.
pub proof fn payloads_stand_between_dots(header: Seq<char>, payload: Seq<char>, rest: Seq<char>)
    requires
        !header.contains('.'),
        !payload.contains('.'),
    ensures
        auth::token_payload(header + seq!['.'] + payload) == base64::decoded(payload),
        auth::token_payload(header + seq!['.'] + payload + seq!['.'] + rest) == base64::decoded(
            payload,
        ),
        auth::token_payload(header) is None,
{
    let none = Seq::<char>::empty();
    let opened = header + seq!['.'];
    let whole = opened + payload;
    let closed = whole + seq!['.'];
    text::lemma_one_segment(header, '.');
    assert(opened.drop_last() =~= header);
    assert(text::segments(opened, '.') =~= seq![header, none]);
    text::lemma_more_segments(opened, payload, '.');
    assert(none + payload =~= payload);
    assert(text::segments(whole, '.') =~= seq![header, payload]);
    assert(closed.drop_last() =~= whole);
    assert(text::segments(closed, '.') =~= seq![header, payload, none]);
    text::lemma_more_segments(closed, rest, '.');
    assert(text::segments(closed + rest, '.')[1] == payload);
}

/// The text is a token whose payload is an object with this expiry.
pub open spec fn is_token(
    token: Seq<char>,
    header: Seq<char>,
    payload: Seq<u8>,
    signature: Seq<char>,
    members: Map<Seq<char>, JsonTree>,
    n: u64,
) -> bool {
    &&& !header.contains('.')
    &&& token == header + seq!['.'] + base64::encoded(payload) + seq!['.'] + signature
    &&& json::json_parse_bytes(payload) == Some(JsonTree::Object(members))
    &&& members.contains_key("exp"@)
    &&& members["exp"@] == JsonTree::Natural(n)
}

/// The expiry of a token is the number under `exp` in its payload, whatever its header, its
/// signature and the rest of its payload are.
pub proof fn tokens_carry_their_expiry(
    token: Seq<char>,
    header: Seq<char>,
    payload: Seq<u8>,
    signature: Seq<char>,
    members: Map<Seq<char>, JsonTree>,
    n: u64,
)
    requires
        is_token(token, header, payload, signature, members, n),
    ensures
        auth::token_expiry(token) == Some(n),
{
    auth::payloads_are_read_back(header, payload, signature);
    the_expiry_is_the_number_under_exp(members, n);
}

/// Credentials with a token and without an API key are healthy exactly while the expiry of the token
/// is to come. The report gives that time and how far off it is.
pub proof fn tokens_are_healthy_until_their_expiry(
    document: JsonTree,
    token: Seq<char>,
    header: Seq<char>,
    payload: Seq<u8>,
    signature: Seq<char>,
    members: Map<Seq<char>, JsonTree>,
    n: u64,
    now: u64,
)
    requires
        is_token(token, header, payload, signature, members, n),
        json::member(json::member(Some(document), "tokens"@), "access_token"@) == Some(
            JsonTree::Text(token),
        ),
        !(text_under(Some(document), "OPENAI_API_KEY"@) matches Some(key) && key.len() > 0),
        i64::MIN <= n - now <= i64::MAX,
    ensures
        ({
            let report = auth::document_report(document, now);
            &&& report.is_healthy() <==> now < n
            &&& report.status == if now < n {
                "ok"@
            } else {
                "expired"@
            }
            &&& report.mode == "chatgpt"@
            &&& report.expires_at == Some(n)
            &&& report.expires_in_seconds == Some((n - now) as i64)
        }),
{
    words::lemma_words_differ();
    tokens_carry_their_expiry(token, header, payload, signature, members, n);
    assert(token.len() > 0);
}

/// The state of a file is the state of the document that it holds.
pub proof fn files_are_judged_by_their_documents(
    contents: Seq<char>,
    document: JsonTree,
    now: u64,
)
    requires
        json::json_parse(contents) == Some(document),
    ensures
        auth::file_report(Some(contents), now) == auth::document_report(document, now),
{
}

/// A file that is absent counts as missing, and one that is no JSON as unreadable.
pub proof fn files_without_documents_are_reported(contents: Seq<char>, now: u64)
    ensures
        is_verdict(
            auth::file_report(None, now),
            "missing"@,
            "none"@,
            Some("auth.json is unreadable or absent"@),
            None,
        ),
        json::json_parse(contents) is None ==> is_verdict(
            auth::file_report(Some(contents), now),
            "unreadable"@,
            "none"@,
            Some("auth.json is not valid JSON"@),
            None,
        ),
{
}

/// The report says this, and nothing of any expiry.
pub open spec fn is_verdict(
    report: AuthReportView,
    status: Seq<char>,
    mode: Seq<char>,
    detail: Option<Seq<char>>,
    last_refresh: Option<Seq<char>>,
) -> bool {
    &&& report.status == status
    &&& report.mode == mode
    &&& report.detail == detail
    &&& report.expires_at is None
    &&& report.expires_in_seconds is None
    &&& report.last_refresh == last_refresh
    &&& report.last_success is None
}

/// The text under a name, where there is one.
pub open spec fn text_under(tree: Option<JsonTree>, key: Seq<char>) -> Option<Seq<char>> {
    match json::member(tree, key) {
        Some(JsonTree::Text(text)) => Some(text),
        _ => None,
    }
}

/// Credentials are read from their places in the document: an API key counts where it is a text that
/// is not empty, and so does an access token, which is kept as it is.
pub proof fn credentials_are_read_from_their_places(document: JsonTree)
    ensures
        ({
            let found = auth::document_credentials(document);
            let key = text_under(Some(document), "OPENAI_API_KEY"@);
            let token = text_under(json::member(Some(document), "tokens"@), "access_token"@);
            &&& found.has_api_key <==> key is Some && key->Some_0.len() > 0
            &&& found.access_token is Some <==> token is Some && token->Some_0.len() > 0
            &&& found.access_token is Some ==> found.access_token == token
            &&& found.last_refresh == text_under(Some(document), "last_refresh"@)
        }),
{
}

/// An API key is enough. Without one there has to be a token, whose expiry decides where it can be
/// read.
pub proof fn keys_come_before_tokens(
    credentials: CredentialsView,
    expires_at: Option<u64>,
    now: u64,
)
    ensures
        ({
            let report = auth::credentials_report(credentials, expires_at, now);
            &&& credentials.has_api_key ==> is_verdict(
                report,
                "ok"@,
                "apikey"@,
                None,
                credentials.last_refresh,
            )
            &&& !credentials.has_api_key && credentials.access_token is None ==> is_verdict(
                report,
                "missing"@,
                "none"@,
                Some("auth.json has neither an API key nor an access token"@),
                credentials.last_refresh,
            )
            &&& !credentials.has_api_key && credentials.access_token is Some && expires_at is None
                ==> is_verdict(
                report,
                "unknown"@,
                "chatgpt"@,
                Some("access token carries no readable expiry"@),
                credentials.last_refresh,
            )
            &&& !credentials.has_api_key && credentials.access_token is Some ==> (
            expires_at matches Some(at) ==> report == auth::token_report(
                at,
                credentials.last_refresh,
                now,
            ))
        }),
{
}

/// A document is judged by the credentials in it and by the expiry of its own token.
pub proof fn documents_are_judged_by_their_credentials(document: JsonTree, now: u64)
    ensures
        ({
            let token = text_under(json::member(Some(document), "tokens"@), "access_token"@);
            auth::document_report(document, now) == auth::credentials_report(
                auth::document_credentials(document),
                if token is Some && token->Some_0.len() > 0 {
                    auth::token_expiry(token->Some_0)
                } else {
                    None
                },
                now,
            )
        }),
{
}

/// What is told of an access token: when it expires, how far off that is and when it was refreshed.
/// Of one that has expired, how long ago that was.
pub proof fn token_reports_tell_the_time_left(
    expires_at: u64,
    last_refresh: Option<Seq<char>>,
    now: u64,
)
    requires
        i64::MIN < expires_at - now <= i64::MAX,
    ensures
        ({
            let report = auth::token_report(expires_at, last_refresh, now);
            &&& report.mode == "chatgpt"@
            &&& report.expires_at == Some(expires_at)
            &&& report.expires_in_seconds == Some((expires_at - now) as i64)
            &&& report.last_refresh == last_refresh
            &&& report.last_success is None
            &&& now < expires_at ==> report.status == "ok"@ && report.detail is None
            &&& now >= expires_at ==> report.status == "expired"@ && report.detail == Some(
                "codex access token expired "@ + auth::duration_text(now - expires_at)
                    + " ago and did not refresh; run `codex login`"@,
            )
        }),
{
}

/// Whatever the two times are, the report gives their difference as far as the machine can hold it,
/// and goes by its sign.
pub proof fn token_reports_go_by_the_time_left(
    expires_at: u64,
    last_refresh: Option<Seq<char>>,
    now: u64,
)
    ensures
        ({
            let report = auth::token_report(expires_at, last_refresh, now);
            &&& report.expires_in_seconds matches Some(left) && (left - (expires_at - now))
                % 0x1_0000_0000_0000_0000 == 0 && if left > 0 {
                report.status == "ok"@ && report.detail is None
            } else {
                report.status == "expired"@ && report.detail is Some
            }
            &&& report.mode == "chatgpt"@
            &&& report.expires_at == Some(expires_at)
            &&& report.last_refresh == last_refresh
            &&& report.last_success is None
        }),
{
    numbers_wrap_round(expires_at - now);
}

/// A number that leaves the range of the machine comes back in on its other side.
pub proof fn numbers_wrap_round(number: int)
    requires
        -0x1_0000_0000_0000_0000 < number < 0x1_0000_0000_0000_0000,
    ensures
        i64::MIN <= auth::wrapped(number) <= i64::MAX,
        (auth::wrapped(number) - number) % 0x1_0000_0000_0000_0000 == 0,
{
}

/// A duration is told in whole days, hours, minutes or seconds, the largest of these that it
/// reaches. What is left over is less than one of them.
pub proof fn durations_are_told_in_the_largest_unit(seconds: int)
    requires
        seconds >= 0,
    ensures
        exists|count: nat, unit: char, size: int|
            #![trigger text::digits(count), is_unit(unit, size)]
            auth::duration_text(seconds) == text::digits(count) + seq![unit] && is_unit(unit, size)
                && count * size <= seconds < count * size + size && (size == 1 || count > 0) && (
            size == 86_400 || seconds < next_unit(size)),
{
    reveal_strlit("d");
    reveal_strlit("h");
    reveal_strlit("m");
    reveal_strlit("s");
    assert("d"@ =~= seq!['d'] && "h"@ =~= seq!['h'] && "m"@ =~= seq!['m'] && "s"@ =~= seq!['s']);
    let (unit, size) = if seconds >= 86_400 {
        ('d', 86_400int)
    } else if seconds >= 3_600 {
        ('h', 3_600int)
    } else if seconds >= 60 {
        ('m', 60int)
    } else {
        ('s', 1int)
    };
    let count = (seconds / size) as nat;
    assert(is_unit(unit, size));
    assert(seconds / 1 == seconds);
    assert(auth::duration_text(seconds) == text::digits(count) + seq![unit]);
    assert(count * size <= seconds < count * size + size);
}

/// A duration that is negative is told in seconds, with its sign.
pub proof fn negative_durations_are_told_in_seconds(seconds: int)
    requires
        seconds < 0,
    ensures
        auth::duration_text(seconds) == seq!['-'] + text::digits((-seconds) as nat) + seq!['s'],
{
    reveal_strlit("s");
    assert("s"@ =~= seq!['s']);
    texts::signs_mark_negative_numbers(seconds);
}

/// The letter of a unit of time, and how many seconds it has.
pub open spec fn is_unit(unit: char, size: int) -> bool {
    ||| unit == 'd' && size == 86_400
    ||| unit == 'h' && size == 3_600
    ||| unit == 'm' && size == 60
    ||| unit == 's' && size == 1
}

/// How many seconds the next larger unit of time has.
pub open spec fn next_unit(size: int) -> int {
    if size == 1 {
        60
    } else if size == 60 {
        3_600
    } else {
        86_400
    }
}

/// The message holds the marker, in upper or lower case.
pub open spec fn mentions(message: Seq<char>, marker: Seq<char>) -> bool {
    exists|before: Seq<char>, after: Seq<char>|
        #![trigger before + marker + after]
        text::ascii_lower(message) == before + marker + after
}

/// A failure concerns the credentials exactly where its message mentions one of six things.
pub proof fn six_markers_concern_the_credentials(message: Seq<char>)
    ensures
        auth::concerns_credentials(message) <==> {
            ||| mentions(message, "refresh token"@)
            ||| mentions(message, "log out and sign in"@)
            ||| mentions(message, "access token could not be refreshed"@)
            ||| mentions(message, "invalid_api_key"@)
            ||| mentions(message, "incorrect api key"@)
            ||| mentions(message, "codex login"@)
        },
{
    let lower = text::ascii_lower(message);
    let markers = auth::AUTH_MARKERS@;
    assert(markers[0]@ == "refresh token"@);
    assert(markers[1]@ == "log out and sign in"@);
    assert(markers[2]@ == "access token could not be refreshed"@);
    assert(markers[3]@ == "invalid_api_key"@);
    assert(markers[4]@ == "incorrect api key"@);
    assert(markers[5]@ == "codex login"@);
    texts::parts_stand_in_their_texts(lower, markers[0]@);
    texts::parts_stand_in_their_texts(lower, markers[1]@);
    texts::parts_stand_in_their_texts(lower, markers[2]@);
    texts::parts_stand_in_their_texts(lower, markers[3]@);
    texts::parts_stand_in_their_texts(lower, markers[4]@);
    texts::parts_stand_in_their_texts(lower, markers[5]@);
}

/// A turn that succeeds is remembered with its time and answers any failure. One that fails on the
/// credentials is remembered with its message and its time, beside the last success. Any other
/// failure changes nothing.
pub proof fn turns_are_remembered(tracker: AuthTrackerView, message: Seq<char>, now: u64)
    ensures
        tracker.after(TurnOutcome::Succeeded, now).last_success == now,
        tracker.after(TurnOutcome::Succeeded, now).failure is None,
        auth::concerns_credentials(message) ==> {
            let next = tracker.after(TurnOutcome::Failed(message), now);
            &&& next.failure == Some(AuthFailureView { message, at: now })
            &&& next.last_success == tracker.last_success
        },
        !auth::concerns_credentials(message) ==> tracker.after(TurnOutcome::Failed(message), now)
            == tracker,
        tracker.cleared().failure is None,
        tracker.cleared().last_success == tracker.last_success,
        tracker.last_success == 0 ==> tracker.success_time() is None,
        tracker.last_success > 0 ==> tracker.success_time() == Some(tracker.last_success),
{
}

/// The last success that is remembered is that of the last turn that succeeded.
pub proof fn the_last_success_is_remembered(turns: Seq<(TurnOutcome, u64)>, i: int)
    requires
        0 <= i < turns.len(),
        turns[i].0 is Succeeded,
        forall|j: int| i < j < turns.len() ==> !((#[trigger] turns[j]).0 is Succeeded),
    ensures
        auth::after_turns(turns).last_success == turns[i].1,
    decreases turns.len(),
{
    if i < turns.len() - 1 {
        let front = turns.drop_last();
        assert forall|j: int| i < j < front.len() implies !((#[trigger] front[j]).0 is Succeeded) by {
            assert(front[j] == turns[j]);
        }
        assert(front[i] == turns[i]);
        the_last_success_is_remembered(front, i);
        assert(!(turns[turns.len() - 1].0 is Succeeded));
    }
}

/// A failure that stands turns the report into a rejection with the message of the failure, and
/// changes nothing else in it. It stands until the file is written after it.
pub proof fn standing_failures_overrule_the_file(evidence: AuthEvidence, tracker: AuthTrackerView)
    ensures
        ({
            let report = auth::inspection(evidence, tracker);
            let file = auth::file_report(text::opt_view(evidence.contents), evidence.now);
            let stands = tracker.failure matches Some(failure) && !(
            evidence.modified_at matches Some(at) && at > failure.at);
            &&& stands ==> report.status == "revoked"@ && report.detail == Some(
                tracker.failure->Some_0.message,
            ) && auth::inspected(evidence, tracker) == tracker
            &&& !stands ==> report.status == file.status && report.detail == file.detail
                && auth::inspected(evidence, tracker).failure is None && auth::inspected(
                evidence,
                tracker,
            ).last_success == tracker.last_success
            &&& report.mode == file.mode
            &&& report.expires_at == file.expires_at
            &&& report.expires_in_seconds == file.expires_in_seconds
            &&& report.last_refresh == file.last_refresh
            &&& tracker.last_success == 0 ==> report.last_success is None
            &&& tracker.last_success > 0 ==> report.last_success == Some(tracker.last_success)
        }),
{
}

/// Credentials are healthy where their status is `ok` or `unknown`.
pub proof fn two_verdicts_are_healthy(report: AuthReportView)
    ensures
        report.is_healthy() <==> report.status == "ok"@ || report.status == "unknown"@,
{
}

/// The advice is the detail of a report. Without one it goes by the verdict.
pub proof fn advice_follows_the_report(report: AuthReportView)
    ensures
        report.detail matches Some(detail) ==> report.advice() == detail,
        report.detail is None && report.status == "revoked"@ ==> report.advice()
            == "codex credentials were rejected; run `codex login`"@,
        report.detail is None && report.status == "expired"@ ==> report.advice()
            == "codex access token expired and did not refresh; run `codex login`"@,
        report.detail is None && report.status == "missing"@ ==> report.advice()
            == "no codex auth.json found; run `codex login`"@,
        report.detail is None && report.status == "unreadable"@ ==> report.advice()
            == "codex auth is "@ + "unreadable"@,
{
    words::lemma_words_differ();
}

/// The document of a report holds the verdict and the mode, and of the rest what is known, each under
/// its own name.
pub proof fn reports_are_written_as_they_are(report: AuthReportView)
    ensures
        ({
            let tree = Some(report.tree());
            &&& report.tree() is Object
            &&& json::member(tree, "status"@) == Some(JsonTree::Text(report.status))
            &&& json::member(tree, "mode"@) == Some(JsonTree::Text(report.mode))
            &&& report.detail is None ==> json::member(tree, "detail"@) is None
            &&& report.detail matches Some(detail) ==> json::member(tree, "detail"@) == Some(
                JsonTree::Text(detail),
            )
            &&& report.expires_at is None ==> json::member(tree, "expires_at"@) is None
            &&& report.expires_at matches Some(at) ==> json::member(tree, "expires_at"@) == Some(
                JsonTree::Natural(at),
            )
            &&& report.expires_in_seconds is None ==> json::member(tree, "expires_in_seconds"@) is None
            &&& report.expires_in_seconds matches Some(left) ==> {
                &&& left >= 0 ==> json::member(tree, "expires_in_seconds"@) == Some(
                    JsonTree::Natural(left as u64),
                )
                &&& left < 0 ==> json::member(tree, "expires_in_seconds"@) == Some(
                    JsonTree::OtherNumber(seq!['-'] + text::digits((-left) as nat)),
                )
            }
            &&& report.last_refresh is None ==> json::member(tree, "last_refresh"@) is None
            &&& report.last_refresh matches Some(at) ==> json::member(tree, "last_refresh"@) == Some(
                JsonTree::Text(at),
            )
            &&& report.last_success is None ==> json::member(tree, "last_success"@) is None
            &&& report.last_success matches Some(at) ==> json::member(tree, "last_success"@) == Some(
                JsonTree::Natural(at),
            )
        }),
{
    words::lemma_words_differ();
    if report.expires_in_seconds is Some {
        texts::signs_mark_negative_numbers(report.expires_in_seconds->Some_0 as int);
    }
}

/// Nothing else stands in the document of a report.
pub proof fn reports_hold_nothing_else(report: AuthReportView, key: Seq<char>)
    requires
        json::member(Some(report.tree()), key) is Some,
    ensures
        key == "status"@ || key == "mode"@ || key == "detail"@ || key == "expires_at"@ || key
            == "expires_in_seconds"@ || key == "last_refresh"@ || key == "last_success"@,
{
}

/// The readiness probe names the backend and tells the state of the credentials where all is well.
/// Else it says what is not, the backend before the credentials.
pub proof fn readiness_says_what_is_missing(report: AuthReportView)
    ensures
        auth::readiness(false, report).status == 503 && answers::is_error(
            auth::readiness(false, report).body,
            "codex app-server is restarting"@,
            "backend_unavailable"@,
        ),
        !report.is_healthy() ==> auth::readiness(true, report).status == 503 && answers::is_error(
            auth::readiness(true, report).body,
            report.advice(),
            "invalid_authentication"@,
        ),
        report.is_healthy() ==> {
            let reply = auth::readiness(true, report);
            &&& reply.status == 200
            &&& conversations::has_members(reply.body, set!["status"@, "backend"@, "auth"@])
            &&& json::member(Some(reply.body), "status"@) == Some(JsonTree::Text("ready"@))
            &&& json::member(Some(reply.body), "backend"@) == Some(JsonTree::Text("app-server"@))
            &&& json::member(Some(reply.body), "auth"@) == Some(report.tree())
        },
{
    words::lemma_words_differ();
}

/// The probe of the credentials answers with their report, and fails where they are not healthy. The
/// probe of the gateway itself always answers that all is well.
pub proof fn probes_answer_with_the_report(report: AuthReportView)
    ensures
        auth::auth_health(report).body == report.tree(),
        report.is_healthy() ==> auth::auth_health(report).status == 200,
        !report.is_healthy() ==> auth::auth_health(report).status == 503,
        conversations::has_members(auth::health_tree(), set!["status"@]),
        json::member(Some(auth::health_tree()), "status"@) == Some(JsonTree::Text("ok"@)),
{
}

} // verus!
