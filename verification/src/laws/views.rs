//! What the values of the library stand for: the same contents, in the same order, as mathematics.
use crate::auth;
use crate::auth::{AuthFailure, AuthReport, AuthTracker, Credentials};
use crate::completion;
use crate::completion::{Arrival, Collector, Progress, ProgressView, RunEnd, RunEndView};
use crate::error::{GatewayError, GatewayErrorView, Reply};
use crate::exchange;
use crate::exchange::{
    Answer, CollectEvent, CollectEventView, Exchange, Opening, OpeningView,
};
use crate::exec_backend::ExecStep;
use crate::json;
use crate::json::JsonTree;
use crate::protocol;
use crate::protocol::{CodexEvent, CodexEventView, CodexRequest, ServerMessage};
use crate::request;
use crate::stream;
use crate::stream::{
    EventStream, Frame, FrameView, OpenStream, StreamEvent, StreamEventView,
};
use crate::transcript;
use crate::transcript::{CodexInput, CodexInputView};
use crate::worker;
use crate::worker::{ActiveRun, LineEffect, Worker};
use serde_json::Value;
use vstd::prelude::*;

verus! {

/// A member of an object is found under its name, and nothing is found under any other name or in a
/// document that is no object.
pub proof fn members_are_found_under_their_names(
    members: Map<Seq<char>, JsonTree>,
    key: Seq<char>,
    other: JsonTree,
)
    ensures
        members.contains_key(key) ==> json::member(Some(JsonTree::Object(members)), key) == Some(
            members[key],
        ),
        !members.contains_key(key) ==> json::member(Some(JsonTree::Object(members)), key) is None,
        !(other is Object) ==> json::member(Some(other), key) is None,
        json::member(None, key) is None,
{
}

/// A text is read from a text alone, and a natural number from a natural number alone.
pub proof fn values_are_read_as_what_they_are(tree: JsonTree, said: Seq<char>, n: u64)
    ensures
        json::text_of(Some(JsonTree::Text(said))) == Some(said),
        !(tree is Text) ==> json::text_of(Some(tree)) is None,
        json::text_of(None) is None,
        json::natural_of(Some(JsonTree::Natural(n))) == Some(n),
        !(tree is Natural) ==> json::natural_of(Some(tree)) is None,
        json::natural_of(None) is None,
{
}

/// A text that is there is written as a text, and one that is not as null.
pub proof fn absent_texts_are_null(said: Seq<char>)
    ensures
        json::nullable(Some(said)) == JsonTree::Text(said),
        json::nullable(None) == JsonTree::Null,
{
}

/// A document stands for what it holds, and a list of documents for what they hold, in order.
pub proof fn lists_of_documents_keep_their_order(values: Seq<Value>, i: int)
    requires
        0 <= i < values.len(),
    ensures
        json::value_trees(values).len() == values.len(),
        json::value_trees(values)[i] == json::value_tree(values[i]),
        json::found_tree(Some(&values[i])) == Some(json::value_tree(values[i])),
        json::found_tree(None) is None,
        json::no_members().dom() =~= Set::<Seq<char>>::empty(),
{
}

/// A failure keeps its kind and its words.
pub proof fn failures_keep_their_words(said: String)
    ensures
        GatewayError::Config(said)@ == GatewayErrorView::Config(said@),
        GatewayError::Invalid(said)@ == GatewayErrorView::Invalid(said@),
        GatewayError::Unavailable@ == GatewayErrorView::Unavailable,
        GatewayError::Backend(said)@ == GatewayErrorView::Backend(said@),
        GatewayError::Timeout@ == GatewayErrorView::Timeout,
{
}

/// A reply keeps its status and its body.
pub proof fn replies_keep_their_body(reply: Reply)
    ensures
        reply@.status == reply.status,
        reply@.body == json::value_tree(reply.body),
{
}

/// An item for Codex keeps its text, or its address and its detail, and a list of items its order.
pub proof fn items_keep_their_contents(items: Seq<CodexInput>, i: int)
    requires
        0 <= i < items.len(),
    ensures
        transcript::input_views(items).len() == items.len(),
        transcript::input_views(items)[i] == items[i]@,
        items[i] matches CodexInput::Text { text } ==> items[i]@ == CodexInputView::Text(text@),
        items[i] matches CodexInput::Image { url, detail } ==> items[i]@ == (CodexInputView::Image {
            url: url@,
            detail,
        }),
{
}

/// An accepted conversation keeps its items, and one that is not its failure.
pub proof fn accepted_items_are_kept(items: Vec<CodexInput>, failure: GatewayError)
    ensures
        transcript::input_result(Ok(items)) == Ok::<Seq<CodexInputView>, GatewayErrorView>(
            transcript::input_views(items@),
        ),
        transcript::input_result(Err(failure)) == Err::<Seq<CodexInputView>, GatewayErrorView>(
            failure@,
        ),
{
}

/// What is asked of Codex keeps its model, its items and its time.
pub proof fn requests_keep_their_contents(asked: CodexRequest, reply: Reply)
    ensures
        asked@.model == asked.model@,
        asked@.input == transcript::input_views(asked.input@),
        asked@.timeout_seconds == asked.timeout_seconds,
        request::preparation(Ok(asked)) == Ok::<_, crate::error::ReplyView>(asked@),
        request::preparation(Err(reply)) == Err::<protocol::CodexRequestView, _>(reply@),
{
}

/// An event of a run keeps its contents, and a list of events its order.
pub proof fn events_keep_their_contents(events: Seq<CodexEvent>, i: int)
    requires
        0 <= i < events.len(),
    ensures
        protocol::event_views(events).len() == events.len(),
        protocol::event_views(events)[i] == events[i]@,
        events[i] matches CodexEvent::TextDelta(said) ==> events[i]@ == CodexEventView::TextDelta(
            said@,
        ),
        events[i] is Completed ==> events[i]@ is Completed,
        events[i] matches CodexEvent::Usage { input_tokens, output_tokens } ==> events[i]@ == (
        CodexEventView::Usage { input_tokens, output_tokens }),
        events[i] matches CodexEvent::Failed(said) ==> events[i]@ == CodexEventView::Failed(said@),
{
}

/// An arrival keeps its event or its failure.
pub proof fn arrivals_keep_their_contents(event: CodexEvent, failure: GatewayError)
    ensures
        completion::arrival_view(Some(Ok::<CodexEvent, GatewayError>(event))) == Some(
            Ok::<CodexEventView, GatewayErrorView>(event@),
        ),
        completion::arrival_view(Some(Err::<CodexEvent, GatewayError>(failure))) == Some(
            Err::<CodexEventView, GatewayErrorView>(failure@),
        ),
        completion::arrival_view(None) is None,
{
}

/// A message of Codex keeps everything that it says.
pub proof fn messages_keep_their_contents(message: ServerMessage)
    ensures
        message@.id == message.id,
        message@.has_error == message.has_error,
        is_view(message@.new_thread_id, message.new_thread_id),
        is_view(message@.new_turn_id, message.new_turn_id),
        is_view(message@.method, message.method),
        is_view(message@.thread_id, message.thread_id),
        is_view(message@.delta, message.delta),
        message@.usage == message.usage,
        is_view(message@.status, message.status),
        is_view(message@.error_message, message.error_message),
{
}

/// The one is there exactly where the other is, and is what it says.
pub open spec fn is_view(said: Option<Seq<char>>, kept: Option<String>) -> bool {
    match kept {
        Some(kept) => said == Some(kept@),
        None => said is None,
    }
}

/// A frame keeps its document, and a list of frames its order.
pub proof fn frames_keep_their_order(frames: Seq<Frame>, i: int)
    requires
        0 <= i < frames.len(),
    ensures
        stream::frame_views(frames).len() == frames.len(),
        stream::frame_views(frames)[i] == frames[i]@,
        frames[i] matches Frame::Data(value) ==> frames[i]@ == FrameView::Data(
            json::value_tree(value),
        ),
        frames[i] is Done ==> frames[i]@ is Done,
        frames[i] is KeepAlive ==> frames[i]@ is KeepAlive,
{
}

/// An event of a stream keeps its kind and its arrival.
pub proof fn stream_events_keep_their_contents(arrival: Arrival)
    ensures
        StreamEvent::Arrived(arrival)@ == StreamEventView::Arrived(completion::arrival_view(arrival)),
        StreamEvent::Quiet@ is Quiet,
        StreamEvent::TimedOut@ is TimedOut,
        CollectEvent::Arrived(arrival)@ == CollectEventView::Arrived(
            completion::arrival_view(arrival),
        ),
        CollectEvent::TimedOut@ is TimedOut,
{
}

/// A stream keeps its fields, whether it holds a permit or not.
pub proof fn streams_keep_their_contents<P>(open: OpenStream<P>, stream: EventStream)
    ensures
        stream@.endpoint == stream.endpoint,
        stream@.id == stream.id@,
        stream@.model == stream.model@,
        stream@.total == stream.total,
        stream@.max_bytes == stream.max_bytes,
        stream@.finished == stream.finished,
        open@.stream == open.stream@,
        open@.permit == open.permit,
{
}

/// A collector keeps its text and its limit, and its progress what it is.
pub proof fn collectors_keep_their_contents(
    collector: Collector,
    failure: GatewayError,
    cancel: bool,
)
    ensures
        collector@.text == collector.text@,
        collector@.max_bytes == collector.max_bytes,
        Progress::Continue@ is Continue,
        Progress::Completed@ is Completed,
        (Progress::Failed { error: failure, cancel })@ == (ProgressView::Failed {
            error: failure@,
            cancel,
        }),
        RunEnd::Completed@ is Completed,
        RunEnd::Failed(failure)@ == RunEndView::Failed(failure@),
        RunEnd::TimedOut@ is TimedOut,
{
}

/// An exchange keeps its fields, and so do its opening and its answer.
pub proof fn exchanges_keep_their_contents(
    exchange: Exchange,
    reply: Reply,
    stream: EventStream,
    answer: Answer,
)
    ensures
        exchange@.endpoint == exchange.endpoint,
        exchange@.streaming == exchange.streaming,
        exchange@.id == exchange.id@,
        exchange@.model == exchange.model@,
        exchange@.collector == exchange.collector@,
        Opening::Refuse(reply)@ == OpeningView::Refuse(reply@),
        Opening::Stream(stream)@ == OpeningView::Stream(stream@),
        Opening::Collect@ is Collect,
        exchange::answer_view(Some(answer)) matches Some(kept) && kept.reply == answer.reply@
            && kept.cancel == answer.cancel,
        exchange::answer_view(None) is None,
{
}

/// What is known of the credentials keeps its fields.
pub proof fn credentials_keep_their_contents(
    failure: AuthFailure,
    tracker: AuthTracker,
    report: AuthReport,
    found: Credentials,
)
    ensures
        failure@.message == failure.message@,
        failure@.at == failure.at,
        tracker@.last_success == tracker.last_success,
        tracker.failure is None ==> tracker@.failure is None,
        tracker.failure matches Some(failure) ==> tracker@.failure == Some(failure@),
        auth::failure_view(Some(failure)) == Some(failure@),
        auth::failure_view(None) is None,
        report@.status == report.status@,
        report@.mode == report.mode@,
        is_view(report@.detail, report.detail),
        report@.expires_at == report.expires_at,
        report@.expires_in_seconds == report.expires_in_seconds,
        is_view(report@.last_refresh, report.last_refresh),
        report@.last_success == report.last_success,
        found@.has_api_key == found.has_api_key,
        is_view(found@.access_token, found.access_token),
        is_view(found@.last_refresh, found.last_refresh),
{
}

/// A run keeps its fields.
pub proof fn runs_keep_their_contents<R>(run: ActiveRun<R>)
    ensures
        run@.handle == run.handle,
        run@.request == run.request@,
        run@.thread_request_id == run.thread_request_id,
        run@.thread_sent == run.thread_sent,
        run@.turn_request_id == run.turn_request_id,
        is_view(run@.thread_id, run.thread_id),
        is_view(run@.turn_id, run.turn_id),
        run@.interrupt_sent == run.interrupt_sent,
{
}

/// A worker keeps its fields, and its runs their order.
pub proof fn workers_keep_their_contents<R>(worker: Worker<R>, i: int)
    ensures
        worker@.queue.len() == worker.queue@.len(),
        0 <= i < worker.queue@.len() ==> worker@.queue[i] == worker.queue@[i]@,
        worker@.connected == worker.connected,
        worker@.reconnect_delay_ms == worker.reconnect_delay_ms,
        worker@.is_idle == worker.is_idle,
        worker@.max_turns == worker.max_turns,
        worker@.turns_served == worker.turns_served,
{
}

/// A list of notices keeps its order, and each notice its handle and its failure.
pub proof fn notices_keep_their_order<R>(list: Seq<(R, GatewayError)>, i: int)
    requires
        0 <= i < list.len(),
    ensures
        worker::notice_views(list).len() == list.len(),
        worker::notice_views(list)[i] == (list[i].0, list[i].1@),
{
}

/// What a message leads to keeps its events, its request and its failure.
pub proof fn effects_keep_their_contents(effect: LineEffect)
    ensures
        effect@.events == protocol::event_views(effect.events@),
        effect.send is None ==> effect@.send is None,
        effect.send matches Some(value) ==> effect@.send == Some(json::value_tree(value)),
        effect.failure is None ==> effect@.failure is None,
        effect.failure matches Some(failure) ==> effect@.failure == Some(failure@),
{
}

/// A step of a single run keeps its fields.
pub proof fn steps_keep_their_contents(step: ExecStep)
    ensures
        step@.send == completion::arrival_view(step.send),
        step@.kill == step.kill,
        step@.stop == step.stop,
        step@.completed == step.completed,
{
}

} // verus!
