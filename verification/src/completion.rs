//! Answers that are given whole: the text of a run is collected, then sent.
use crate::error;
use crate::error::{GatewayError, GatewayErrorView, Reply};
use crate::json;
use crate::json::{JsonTree, Members};
use crate::protocol::{CodexEvent, CodexEventView};
use crate::text;
use serde_json::Value;
use vstd::prelude::*;
use vstd::string::*;

verus! {

/// What arrives from a run: an event, or the failure of the run, or nothing once the run has
/// stopped sending.
pub type Arrival = Option<Result<CodexEvent, GatewayError>>;

/// An [`Arrival`] with its texts as characters.
pub type ArrivalView = Option<Result<CodexEventView, GatewayErrorView>>;

/// An arrival, with its texts as characters.
pub open spec fn arrival_view(arrival: Arrival) -> ArrivalView {
    match arrival {
        Some(Ok(event)) => Some(Ok(event@)),
        Some(Err(error)) => Some(Err(error@)),
        None => None,
    }
}

/// What an arrival leads to.
#[derive(Debug)]
pub enum Progress {
    /// More is to come.
    Continue,
    /// The run is completed.
    Completed,
    /// The run failed. Where `cancel` is set, it goes on unless it is stopped.
    Failed { error: GatewayError, cancel: bool },
}

/// A [`Progress`] with its text as characters.
pub enum ProgressView {
    Continue,
    Completed,
    Failed { error: GatewayErrorView, cancel: bool },
}

impl View for Progress {
    type V = ProgressView;

    open spec fn view(&self) -> ProgressView {
        match self {
            Progress::Continue => ProgressView::Continue,
            Progress::Completed => ProgressView::Completed,
            Progress::Failed { error, cancel } => ProgressView::Failed {
                error: error@,
                cancel: *cancel,
            },
        }
    }
}

/// The text of a run, as far as it has arrived.
#[derive(Debug)]
pub struct Collector {
    pub text: String,
    /// How many bytes the text may have.
    pub max_bytes: usize,
}

/// A [`Collector`] with its text as characters.
pub struct CollectorView {
    pub text: Seq<char>,
    pub max_bytes: usize,
}

impl View for Collector {
    type V = CollectorView;

    open spec fn view(&self) -> CollectorView {
        CollectorView { text: self.text@, max_bytes: self.max_bytes }
    }
}

impl CollectorView {
    /// The collector after an arrival.
    pub open spec fn after(self, arrival: ArrivalView) -> CollectorView {
        match arrival {
            Some(Ok(CodexEventView::TextDelta(delta))) => CollectorView {
                text: self.text + delta,
                ..self
            },
            _ => self,
        }
    }

    /// What an arrival leads to.
    pub open spec fn progress(self, arrival: ArrivalView) -> ProgressView {
        match arrival {
            Some(Ok(CodexEventView::TextDelta(delta))) => if text::byte_len(self.text + delta)
                > self.max_bytes {
                ProgressView::Failed {
                    error: GatewayErrorView::Backend("response exceeded configured limit"@),
                    cancel: true,
                }
            } else {
                ProgressView::Continue
            },
            Some(Ok(CodexEventView::Completed)) => ProgressView::Completed,
            Some(Ok(CodexEventView::Usage { input_tokens, output_tokens })) => ProgressView::Continue,
            Some(Ok(CodexEventView::Failed(message))) => ProgressView::Failed {
                error: GatewayErrorView::Backend(message),
                cancel: false,
            },
            Some(Err(error)) => ProgressView::Failed { error, cancel: false },
            None => ProgressView::Failed {
                error: GatewayErrorView::Backend("backend stream ended before completion"@),
                cancel: false,
            },
        }
    }
}

impl Collector {
    /// No text yet.
    pub fn new(max_bytes: usize) -> (collector: Collector)
        ensures
            collector@ == (CollectorView { text: Seq::empty(), max_bytes }),
    {
        Collector { text: String::new(), max_bytes }
    }

    /// Takes in what arrived.
    pub fn accept(&mut self, arrival: Arrival) -> (progress: Progress)
        ensures
            final(self)@ == old(self)@.after(arrival_view(arrival)),
            progress@ == old(self)@.progress(arrival_view(arrival)),
    {
        match arrival {
            Some(Ok(CodexEvent::TextDelta(delta))) => {
                self.text.append(delta.as_str());
                if text::len_of(self.text.as_str()) > self.max_bytes {
                    Progress::Failed {
                        error: GatewayError::Backend(
                            "response exceeded configured limit".to_owned(),
                        ),
                        cancel: true,
                    }
                } else {
                    Progress::Continue
                }
            },
            Some(Ok(CodexEvent::Completed)) => Progress::Completed,
            Some(Ok(CodexEvent::Usage { input_tokens, output_tokens })) => Progress::Continue,
            Some(Ok(CodexEvent::Failed(message))) => Progress::Failed {
                error: GatewayError::Backend(message),
                cancel: false,
            },
            Some(Err(error)) => Progress::Failed { error, cancel: false },
            None => Progress::Failed {
                error: GatewayError::Backend(
                    "backend stream ended before completion".to_owned(),
                ),
                cancel: false,
            },
        }
    }
}

/// How a run ended.
#[derive(Debug)]
pub enum RunEnd {
    Completed,
    Failed(GatewayError),
    /// Its time was up.
    TimedOut,
}

/// A [`RunEnd`] with its text as characters.
pub enum RunEndView {
    Completed,
    Failed(GatewayErrorView),
    TimedOut,
}

impl View for RunEnd {
    type V = RunEndView;

    open spec fn view(&self) -> RunEndView {
        match self {
            RunEnd::Completed => RunEndView::Completed,
            RunEnd::Failed(error) => RunEndView::Failed(error@),
            RunEnd::TimedOut => RunEndView::TimedOut,
        }
    }
}

/// The body of a chat completion.
pub open spec fn completion_tree(
    id: Seq<char>,
    created: u64,
    model: Seq<char>,
    text: Seq<char>,
) -> JsonTree {
    JsonTree::Object(
        map![
            "id"@ => JsonTree::Text(id),
            "object"@ => JsonTree::Text("chat.completion"@),
            "created"@ => JsonTree::Natural(created),
            "model"@ => JsonTree::Text(model),
            "choices"@ => JsonTree::Array(
                seq![
                    JsonTree::Object(
                        map![
                            "index"@ => JsonTree::Natural(0),
                            "message"@ => JsonTree::Object(
                                map![
                                    "role"@ => JsonTree::Text("assistant"@),
                                    "content"@ => JsonTree::Text(text),
                                ],
                            ),
                            "finish_reason"@ => JsonTree::Text("stop"@),
                        ],
                    ),
                ],
            ),
        ],
    )
}

/// The body of a chat completion.
fn completion_body(id: &str, created: u64, model: &str, content: &str) -> (body: Value)
    ensures
        json::value_tree(body) == completion_tree(id@, created, model@, content@),
{
    let message: Value = Members::new().with("role", json::text("assistant")).with(
        "content",
        json::text(content),
    ).build();
    let choice: Value = Members::new().with("index", json::natural(0)).with("message", message).with(
        "finish_reason",
        json::text("stop"),
    ).build();
    Members::new().with("id", json::text(id)).with("object", json::text("chat.completion")).with(
        "created",
        json::natural(created),
    ).with("model", json::text(model)).with("choices", json::array_of_one(choice)).build()
}

/// The body of a response.
pub open spec fn response_tree(id: Seq<char>, model: Seq<char>, text: Seq<char>) -> JsonTree {
    JsonTree::Object(
        map![
            "id"@ => JsonTree::Text(id),
            "object"@ => JsonTree::Text("response"@),
            "status"@ => JsonTree::Text("completed"@),
            "model"@ => JsonTree::Text(model),
            "output"@ => JsonTree::Array(
                seq![
                    JsonTree::Object(
                        map![
                            "type"@ => JsonTree::Text("message"@),
                            "role"@ => JsonTree::Text("assistant"@),
                            "content"@ => JsonTree::Array(
                                seq![
                                    JsonTree::Object(
                                        map![
                                            "type"@ => JsonTree::Text("output_text"@),
                                            "text"@ => JsonTree::Text(text),
                                        ],
                                    ),
                                ],
                            ),
                        ],
                    ),
                ],
            ),
        ],
    )
}

/// The body of a response.
fn response_body(id: &str, model: &str, content: &str) -> (body: Value)
    ensures
        json::value_tree(body) == response_tree(id@, model@, content@),
{
    let part: Value = Members::new().with("type", json::text("output_text")).with(
        "text",
        json::text(content),
    ).build();
    let message: Value = Members::new().with("type", json::text("message")).with(
        "role",
        json::text("assistant"),
    ).with("content", json::array_of_one(part)).build();
    Members::new().with("id", json::text(id)).with("object", json::text("response")).with(
        "status",
        json::text("completed"),
    ).with("model", json::text(model)).with("output", json::array_of_one(message)).build()
}

/// The reply to a run that ended in this way, where `body` is what a run that is completed is
/// answered with.
pub open spec fn end_reply(end: RunEndView, body: JsonTree) -> error::ReplyView {
    match end {
        RunEndView::Completed => error::ReplyView { status: error::OK, body },
        RunEndView::Failed(failure) => error::failure_reply(failure),
        RunEndView::TimedOut => error::failure_reply(GatewayErrorView::Timeout),
    }
}

/// The reply to a chat request whose run ended in this way with this text.
pub fn chat_reply(end: RunEnd, id: &str, created: u64, model: &str, content: &str) -> (reply: Reply)
    ensures
        reply@ == end_reply(end@, completion_tree(id@, created, model@, content@)),
{
    match end {
        RunEnd::Completed => Reply {
            status: error::OK,
            body: completion_body(id, created, model, content),
        },
        RunEnd::Failed(failure) => error::backend_error_response(failure),
        RunEnd::TimedOut => error::timeout_response(),
    }
}

/// The reply to a request for a response whose run ended in this way with this text.
pub fn response_reply(end: RunEnd, id: &str, model: &str, content: &str) -> (reply: Reply)
    ensures
        reply@ == end_reply(end@, response_tree(id@, model@, content@)),
{
    match end {
        RunEnd::Completed => Reply { status: error::OK, body: response_body(id, model, content) },
        RunEnd::Failed(failure) => error::backend_error_response(failure),
        RunEnd::TimedOut => error::timeout_response(),
    }
}

/// What the arrivals of a run come to: a text that is still growing, a text that is complete, or a
/// failure.
pub enum Collected {
    Pending(Seq<char>),
    Completed(Seq<char>),
    Failed(GatewayErrorView),
}

/// What a sequence of arrivals comes to. Nothing counts that comes after the end.
pub open spec fn collected(arrivals: Seq<ArrivalView>, max_bytes: usize) -> Collected
    decreases arrivals.len(),
{
    if arrivals.len() == 0 {
        Collected::Pending(Seq::empty())
    } else {
        match collected(arrivals.drop_last(), max_bytes) {
            Collected::Pending(text) => {
                let before = CollectorView { text, max_bytes };
                match before.progress(arrivals.last()) {
                    ProgressView::Continue => Collected::Pending(
                        before.after(arrivals.last()).text,
                    ),
                    ProgressView::Completed => Collected::Completed(text),
                    ProgressView::Failed { error, cancel } => Collected::Failed(error),
                }
            },
            end => end,
        }
    }
}

/// The text that a sequence of arrivals brings.
pub open spec fn arrived_text(arrivals: Seq<ArrivalView>) -> Seq<char>
    decreases arrivals.len(),
{
    if arrivals.len() == 0 {
        Seq::empty()
    } else {
        match arrivals.last() {
            Some(Ok(CodexEventView::TextDelta(delta))) => arrived_text(arrivals.drop_last())
                + delta,
            _ => arrived_text(arrivals.drop_last()),
        }
    }
}

/// An arrival after which more is to come: text, or token counts.
pub open spec fn is_ongoing(arrival: ArrivalView) -> bool {
    match arrival {
        Some(Ok(CodexEventView::TextDelta(_))) => true,
        Some(Ok(CodexEventView::Usage { input_tokens, output_tokens })) => true,
        _ => false,
    }
}

/// The arrivals are text and token counts alone, and the text is within the limit.
pub open spec fn is_pending(arrivals: Seq<ArrivalView>, max_bytes: usize) -> bool {
    &&& forall|i: int| 0 <= i < arrivals.len() ==> is_ongoing(#[trigger] arrivals[i])
    &&& text::byte_len(arrived_text(arrivals)) <= max_bytes
}

/// A run goes on exactly as long as it sends text and token counts alone and the text is within the
/// limit. What has been collected by then is all the text that has arrived.
pub proof fn pending_means_text_within_the_limit(arrivals: Seq<ArrivalView>, max_bytes: usize)
    ensures
        collected(arrivals, max_bytes) is Pending <==> is_pending(arrivals, max_bytes),
        collected(arrivals, max_bytes) matches Collected::Pending(text) ==> text == arrived_text(
            arrivals,
        ),
    decreases arrivals.len(),
{
    if arrivals.len() > 0 {
        let front = arrivals.drop_last();
        let last = arrivals.last();
        pending_means_text_within_the_limit(front, max_bytes);
        assert forall|i: int| 0 <= i < front.len() implies #[trigger] arrivals[i] == front[i] by {}
        if is_pending(arrivals, max_bytes) {
            assert forall|i: int| 0 <= i < front.len() implies is_ongoing(#[trigger] front[i]) by {
                assert(is_ongoing(arrivals[i]));
            }
            assert(is_ongoing(arrivals[arrivals.len() - 1]));
            match last {
                Some(Ok(CodexEventView::TextDelta(delta))) => {
                    text::lemma_byte_len_add(arrived_text(front), delta);
                },
                _ => {},
            }
            assert(is_pending(front, max_bytes));
        }
        if collected(arrivals, max_bytes) is Pending {
            assert(is_pending(front, max_bytes));
            assert(is_ongoing(last));
            assert forall|i: int| 0 <= i < arrivals.len() implies is_ongoing(
                #[trigger] arrivals[i],
            ) by {
                if i < front.len() {
                    assert(is_ongoing(front[i]));
                }
            }
        }
    } else {
        assert(vstd::utf8::encode_utf8(Seq::<char>::empty()).len() == 0);
    }
}

/// A run counts as completed exactly where it says so after nothing but text and token counts, and
/// the text is within the limit. The answer is that text, whole and in order.
pub proof fn completed_runs_are_answered_whole(
    arrivals: Seq<ArrivalView>,
    end: ArrivalView,
    max_bytes: usize,
    text: Seq<char>,
)
    ensures
        is_pending(arrivals, max_bytes) && end == Some(
            Ok::<CodexEventView, GatewayErrorView>(CodexEventView::Completed),
        ) ==> collected(arrivals.push(end), max_bytes) == Collected::Completed(
            arrived_text(arrivals),
        ),
        is_pending(arrivals, max_bytes) && collected(arrivals.push(end), max_bytes) is Completed
            ==> end == Some(Ok::<CodexEventView, GatewayErrorView>(CodexEventView::Completed)),
        collected(arrivals, max_bytes) == Collected::Completed(text) ==> exists|n: int|
            0 <= n < arrivals.len() && is_pending(arrivals.take(n), max_bytes) && text
                == arrived_text(arrivals.take(n)) && #[trigger] arrivals[n] == Some(
                Ok::<CodexEventView, GatewayErrorView>(CodexEventView::Completed),
            ),
    decreases arrivals.len(),
{
    pending_means_text_within_the_limit(arrivals, max_bytes);
    assert(arrivals.push(end).drop_last() =~= arrivals);
    if collected(arrivals, max_bytes) == Collected::Completed(text) {
        let front = arrivals.drop_last();
        let n = front.len() as int;
        pending_means_text_within_the_limit(front, max_bytes);
        if collected(front, max_bytes) is Pending {
            assert(arrivals.take(n) =~= front);
            assert(arrivals[n] == Some(
                Ok::<CodexEventView, GatewayErrorView>(CodexEventView::Completed),
            ));
        } else {
            completed_runs_are_answered_whole(front, end, max_bytes, text);
            let k = choose|k: int|
                0 <= k < front.len() && is_pending(front.take(k), max_bytes) && text
                    == arrived_text(front.take(k)) && #[trigger] front[k] == Some(
                    Ok::<CodexEventView, GatewayErrorView>(CodexEventView::Completed),
                );
            assert(arrivals.take(k) =~= front.take(k));
            assert(arrivals[k] == front[k]);
        }
    }
}

/// A run that failed, that stopped sending or whose time was up is never answered with a
/// completion.
pub proof fn only_completed_runs_are_answered_with_success(end: RunEndView, body: JsonTree)
    ensures
        end_reply(end, body).status == error::OK <==> end is Completed,
        end is Completed ==> end_reply(end, body).body == body,
{
}

} // verus!
