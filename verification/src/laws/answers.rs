//! What becomes of the text of a run on its way to the client.
use crate::completion;
use crate::completion::{ArrivalView, CollectorView, ProgressView, RunEndView};
use crate::error;
use crate::error::{GatewayErrorView, PermitRefusal};
use crate::exchange::{CollectEventView, ExchangeView, OpeningView};
use crate::json;
use crate::json::JsonTree;
use crate::laws::conversations;
use crate::laws::words;
use crate::protocol::CodexEventView;
use crate::stream::{Endpoint, EventStreamView, FrameView, StreamEventView};
use crate::text;
use vstd::prelude::*;
use vstd::utf8::*;

verus! {

/// The text that a frame shows the client: the content of the first choice of a chat, the delta of a
/// response.
pub open spec fn shown_text(endpoint: Endpoint, frame: FrameView) -> Option<JsonTree> {
    match frame {
        FrameView::Data(tree) => match endpoint {
            Endpoint::Chat => json::member(
                json::member(
                    conversations::element(json::member(Some(tree), "choices"@), 0),
                    "delta"@,
                ),
                "content"@,
            ),
            Endpoint::Responses => json::member(Some(tree), "delta"@),
        },
        _ => None,
    }
}

/// The texts that the frames show the client, joined.
pub open spec fn shown(endpoint: Endpoint, frames: Seq<FrameView>) -> Seq<char>
    decreases frames.len(),
{
    if frames.len() == 0 {
        Seq::empty()
    } else {
        match shown_text(endpoint, frames.last()) {
            Some(JsonTree::Text(piece)) => shown(endpoint, frames.drop_last()) + piece,
            _ => shown(endpoint, frames.drop_last()),
        }
    }
}

/// The event that a piece of text arrived.
pub open spec fn said(delta: Seq<char>) -> StreamEventView {
    StreamEventView::Arrived(
        Some(Ok::<CodexEventView, GatewayErrorView>(CodexEventView::TextDelta(delta))),
    )
}

/// The event that the run is completed.
pub open spec fn finished() -> StreamEventView {
    StreamEventView::Arrived(Some(Ok::<CodexEventView, GatewayErrorView>(CodexEventView::Completed)))
}

/// The event that the run reported its use of tokens.
pub open spec fn counted(input_tokens: Option<u64>, output_tokens: Option<u64>) -> StreamEventView {
    StreamEventView::Arrived(
        Some(
            Ok::<CodexEventView, GatewayErrorView>(
                CodexEventView::Usage { input_tokens, output_tokens },
            ),
        ),
    )
}

/// The texts that arrived, joined.
pub open spec fn joined(events: Seq<StreamEventView>) -> Seq<char>
    decreases events.len(),
{
    if events.len() == 0 {
        Seq::empty()
    } else {
        match events.last() {
            StreamEventView::Arrived(Some(Ok(CodexEventView::TextDelta(delta)))) => joined(
                events.drop_last(),
            ) + delta,
            _ => joined(events.drop_last()),
        }
    }
}

/// Nothing but text, counts of tokens and silence arrived.
pub open spec fn goes_on(events: Seq<StreamEventView>) -> bool {
    forall|i: int|
        0 <= i < events.len() ==> match #[trigger] events[i] {
            StreamEventView::Arrived(Some(Ok(CodexEventView::TextDelta(_)))) => true,
            StreamEventView::Arrived(
                Some(Ok(CodexEventView::Usage { input_tokens, output_tokens })),
            ) => true,
            StreamEventView::Quiet => true,
            _ => false,
        }
}

/// A piece of text that arrives within the limit is sent at once, in one frame, exactly as it is.
/// The stream goes on, with that many bytes less to send.
pub proof fn pieces_are_sent_as_they_arrive(stream: EventStreamView, delta: Seq<char>)
    requires
        !stream.finished,
        stream.total + encode_utf8(delta).len() <= stream.max_bytes,
    ensures
        ({
            let frames = stream.frames(said(delta));
            let next = stream.after(said(delta));
            &&& frames.len() == 1
            &&& shown_text(stream.endpoint, frames[0]) == Some(JsonTree::Text(delta))
            &&& next.total == stream.total + encode_utf8(delta).len()
            &&& !next.finished
            &&& next.endpoint == stream.endpoint && next.id == stream.id && next.model
                == stream.model && next.max_bytes == stream.max_bytes
            &&& frames[0] matches FrameView::Data(tree) && match stream.endpoint {
                Endpoint::Chat => {
                    let choice = conversations::element(json::member(Some(tree), "choices"@), 0);
                    &&& is_chunk(tree, stream.id, stream.model)
                    &&& json::member(choice, "finish_reason"@) == Some(JsonTree::Null)
                    &&& conversations::has_members(
                        json::member(choice, "delta"@)->Some_0,
                        set!["content"@],
                    )
                },
                Endpoint::Responses => {
                    &&& conversations::has_members(tree, set!["type"@, "delta"@])
                    &&& json::member(Some(tree), "type"@) == Some(
                        JsonTree::Text("response.output_text.delta"@),
                    )
                },
            }
        }),
{
    words::lemma_words_differ();
}

/// The document is a chunk of a chat completion with one choice.
pub open spec fn is_chunk(tree: JsonTree, id: Seq<char>, model: Seq<char>) -> bool {
    let choices = json::member(Some(tree), "choices"@);
    let choice = conversations::element(choices, 0);
    &&& conversations::has_members(tree, set!["id"@, "object"@, "model"@, "choices"@])
    &&& json::member(Some(tree), "id"@) == Some(JsonTree::Text(id))
    &&& json::member(Some(tree), "object"@) == Some(JsonTree::Text("chat.completion.chunk"@))
    &&& json::member(Some(tree), "model"@) == Some(JsonTree::Text(model))
    &&& choices matches Some(JsonTree::Array(list)) && list.len() == 1
    &&& choice is Some && conversations::has_members(
        choice->Some_0,
        set!["index"@, "delta"@, "finish_reason"@],
    )
    &&& json::member(choice, "index"@) == Some(JsonTree::Natural(0))
}

/// A piece of text that would exceed the limit is not sent, in whole or in part. The stream ends:
/// a chat without a word, a response with an error.
pub proof fn oversized_pieces_end_the_stream(stream: EventStreamView, delta: Seq<char>)
    requires
        !stream.finished,
        stream.total + encode_utf8(delta).len() > stream.max_bytes,
    ensures
        stream.after(said(delta)).finished,
        stream.endpoint is Chat ==> stream.frames(said(delta)).len() == 0,
        stream.endpoint is Responses ==> {
            &&& stream.frames(said(delta)).len() == 1
            &&& stream.frames(said(delta))[0] matches FrameView::Data(tree) && is_error(
                tree,
                "response exceeded configured limit"@,
                "backend_unavailable"@,
            )
        },
{
    words::lemma_words_differ();
}

/// Counts of tokens are not shown and silence is answered with a sign of life. Neither changes
/// anything.
pub proof fn counts_and_silence_show_nothing(
    stream: EventStreamView,
    input_tokens: Option<u64>,
    output_tokens: Option<u64>,
)
    requires
        !stream.finished,
    ensures
        stream.frames(counted(input_tokens, output_tokens)).len() == 0,
        stream.after(counted(input_tokens, output_tokens)) == stream,
        stream.frames(StreamEventView::Quiet) == seq![FrameView::KeepAlive],
        stream.after(StreamEventView::Quiet) == stream,
{
}

/// A stream begins with a frame that names the answer and the model and shows no text yet.
pub proof fn openings_name_the_answer(stream: EventStreamView)
    ensures
        shown_text(stream.endpoint, stream.opening()) is None,
        stream.opening() matches FrameView::Data(tree) && match stream.endpoint {
            Endpoint::Chat => {
                let choice = conversations::element(json::member(Some(tree), "choices"@), 0);
                &&& is_chunk(tree, stream.id, stream.model)
                &&& json::member(choice, "finish_reason"@) == Some(JsonTree::Null)
                &&& json::member(json::member(choice, "delta"@), "role"@) == Some(
                    JsonTree::Text("assistant"@),
                )
            },
            Endpoint::Responses => {
                let response = json::member(Some(tree), "response"@);
                &&& conversations::has_members(tree, set!["type"@, "response"@])
                &&& json::member(Some(tree), "type"@) == Some(JsonTree::Text("response.created"@))
                &&& conversations::has_members(
                    response->Some_0,
                    set!["id"@, "object"@, "status"@, "model"@],
                )
                &&& json::member(response, "id"@) == Some(JsonTree::Text(stream.id))
                &&& json::member(response, "object"@) == Some(JsonTree::Text("response"@))
                &&& json::member(response, "status"@) == Some(JsonTree::Text("in_progress"@))
                &&& json::member(response, "model"@) == Some(JsonTree::Text(stream.model))
            },
        },
{
    words::lemma_words_differ();
}

/// A completed run ends the stream with two frames that show no text: a chat with the reason that it
/// stopped and the mark that nothing follows, a response with the end of its text and its own end.
pub proof fn completed_streams_end_in_two_frames(stream: EventStreamView)
    requires
        !stream.finished,
    ensures
        stream.after(finished()).finished,
        stream.frames(finished()).len() == 2,
        shown_text(stream.endpoint, stream.frames(finished())[0]) is None,
        shown_text(stream.endpoint, stream.frames(finished())[1]) is None,
        stream.frames(finished())[0] matches FrameView::Data(tree) && match stream.endpoint {
            Endpoint::Chat => {
                let choice = conversations::element(json::member(Some(tree), "choices"@), 0);
                &&& is_chunk(tree, stream.id, stream.model)
                &&& json::member(choice, "finish_reason"@) == Some(JsonTree::Text("stop"@))
                &&& conversations::has_members(
                    json::member(choice, "delta"@)->Some_0,
                    Set::<Seq<char>>::empty(),
                )
            },
            Endpoint::Responses => {
                &&& conversations::has_members(tree, set!["type"@])
                &&& json::member(Some(tree), "type"@) == Some(
                    JsonTree::Text("response.output_text.done"@),
                )
            },
        },
        match stream.endpoint {
            Endpoint::Chat => stream.frames(finished())[1] is Done,
            Endpoint::Responses => {
                &&& stream.frames(finished())[1] matches FrameView::Data(tree)
                &&& conversations::has_members(tree, set!["type"@])
                &&& json::member(Some(tree), "type"@) == Some(JsonTree::Text("response.completed"@))
            },
        },
{
    words::lemma_words_differ();
}

/// The document says what went wrong and of which kind it is, and nothing more.
pub open spec fn is_error(tree: JsonTree, message: Seq<char>, kind: Seq<char>) -> bool {
    let told = json::member(Some(tree), "error"@);
    &&& conversations::has_members(tree, set!["error"@])
    &&& told is Some && conversations::has_members(
        told->Some_0,
        set!["message"@, "type"@, "param"@, "code"@],
    )
    &&& json::member(told, "message"@) == Some(JsonTree::Text(message))
    &&& json::member(told, "type"@) == Some(JsonTree::Text(kind))
    &&& json::member(told, "param"@) == Some(JsonTree::Null)
    &&& json::member(told, "code"@) == Some(JsonTree::Null)
}

/// A run that fails, that breaks off or whose time is up ends the stream with one frame that says
/// why.
pub proof fn failed_streams_say_why(
    stream: EventStreamView,
    message: Seq<char>,
    failure: GatewayErrorView,
)
    requires
        !stream.finished,
    ensures
        ends_with_error(
            stream,
            StreamEventView::Arrived(
                Some(Ok::<CodexEventView, GatewayErrorView>(CodexEventView::Failed(message))),
            ),
            message,
            "backend_unavailable"@,
        ),
        ends_with_error(
            stream,
            StreamEventView::Arrived(Some(Err::<CodexEventView, GatewayErrorView>(failure))),
            failure.message(),
            "backend_unavailable"@,
        ),
        ends_with_error(
            stream,
            StreamEventView::Arrived(None),
            "backend stream ended before completion"@,
            "backend_unavailable"@,
        ),
        ends_with_error(
            stream,
            StreamEventView::TimedOut,
            "request timed out"@,
            "timeout_error"@,
        ),
{
    words::lemma_words_differ();
}

/// The event is answered with one error frame, which is the last one.
pub open spec fn ends_with_error(
    stream: EventStreamView,
    event: StreamEventView,
    message: Seq<char>,
    kind: Seq<char>,
) -> bool {
    &&& stream.after(event).finished
    &&& stream.frames(event).len() == 1
    &&& stream.frames(event)[0] matches FrameView::Data(tree) && is_error(tree, message, kind)
}

/// A stream that has ended sends nothing more and stays as it is.
pub proof fn ended_streams_send_nothing(stream: EventStreamView, event: StreamEventView)
    requires
        stream.finished,
    ensures
        stream.frames(event).len() == 0,
        stream.after(event) == stream,
{
}

proof fn lemma_shown_add(endpoint: Endpoint, a: Seq<FrameView>, b: Seq<FrameView>)
    ensures
        shown(endpoint, a + b) == shown(endpoint, a) + shown(endpoint, b),
    decreases b.len(),
{
    if b.len() == 0 {
        assert(a + b =~= a);
        assert(shown(endpoint, a) + shown(endpoint, b) =~= shown(endpoint, a));
    } else {
        assert((a + b).drop_last() =~= a + b.drop_last());
        lemma_shown_add(endpoint, a, b.drop_last());
        assert(shown(endpoint, a + b) =~= shown(endpoint, a) + shown(endpoint, b));
    }
}

proof fn lemma_one_frame(endpoint: Endpoint, frame: FrameView)
    ensures
        shown(endpoint, seq![frame]) == match shown_text(endpoint, frame) {
            Some(JsonTree::Text(piece)) => piece,
            _ => Seq::empty(),
        },
{
    assert(seq![frame].drop_last() =~= Seq::<FrameView>::empty());
    assert(shown(endpoint, Seq::<FrameView>::empty()) =~= Seq::<char>::empty());
    match shown_text(endpoint, frame) {
        Some(JsonTree::Text(piece)) => {
            assert(Seq::<char>::empty() + piece =~= piece);
        },
        _ => {},
    }
}

/// While the run goes on and stays within the limit, the texts that the client was shown, joined,
/// are the texts that arrived, joined: nothing is left out, added, changed or moved.
pub proof fn streams_show_what_arrived(stream: EventStreamView, events: Seq<StreamEventView>)
    requires
        !stream.finished,
        goes_on(events),
        stream.total + encode_utf8(joined(events)).len() <= stream.max_bytes,
    ensures
        shown(stream.endpoint, stream.all_frames(events)) == joined(events),
        !stream.after_all(events).finished,
        stream.after_all(events).total == stream.total + encode_utf8(joined(events)).len(),
        stream.after_all(events).endpoint == stream.endpoint,
        stream.after_all(events).id == stream.id,
        stream.after_all(events).model == stream.model,
        stream.after_all(events).max_bytes == stream.max_bytes,
    decreases events.len(),
{
    if events.len() == 0 {
        assert(encode_utf8(Seq::<char>::empty()).len() == 0);
    } else {
        let front = events.drop_last();
        assert forall|i: int| 0 <= i < front.len() implies #[trigger] front[i] == events[i] by {}
        assert(goes_on(front));
        let last = events.last();
        assert(last == events[events.len() - 1]);
        match last {
            StreamEventView::Arrived(Some(Ok(CodexEventView::TextDelta(delta)))) => {
                text::lemma_byte_len_add(joined(front), delta);
                streams_show_what_arrived(stream, front);
                let before = stream.after_all(front);
                pieces_are_sent_as_they_arrive(before, delta);
                let frames = before.frames(last);
                assert(frames =~= seq![frames[0]]);
                lemma_one_frame(stream.endpoint, frames[0]);
                lemma_shown_add(stream.endpoint, stream.all_frames(front), frames);
            },
            StreamEventView::Quiet => {
                streams_show_what_arrived(stream, front);
                let frames = stream.after_all(front).frames(last);
                assert(frames =~= seq![FrameView::KeepAlive]);
                lemma_one_frame(stream.endpoint, FrameView::KeepAlive);
                lemma_shown_add(stream.endpoint, stream.all_frames(front), frames);
                assert(joined(front) + Seq::<char>::empty() =~= joined(front));
            },
            _ => {
                streams_show_what_arrived(stream, front);
                let frames = stream.after_all(front).frames(last);
                assert(frames =~= Seq::<FrameView>::empty());
                assert(stream.all_frames(events) =~= stream.all_frames(front));
            },
        }
    }
}

/// Of a completed run the client was shown, joined, exactly the texts that arrived, joined.
pub proof fn completed_streams_show_all_that_arrived(
    stream: EventStreamView,
    events: Seq<StreamEventView>,
)
    requires
        !stream.finished,
        goes_on(events),
        stream.total + encode_utf8(joined(events)).len() <= stream.max_bytes,
    ensures
        shown(stream.endpoint, stream.all_frames(events.push(finished()))) == joined(events),
        stream.after_all(events.push(finished())).finished,
{
    let whole = events.push(finished());
    assert(whole.drop_last() =~= events);
    streams_show_what_arrived(stream, events);
    let before = stream.after_all(events);
    completed_streams_end_in_two_frames(before);
    let frames = before.frames(finished());
    assert(frames =~= seq![frames[0]] + seq![frames[1]]);
    lemma_one_frame(stream.endpoint, frames[0]);
    lemma_one_frame(stream.endpoint, frames[1]);
    lemma_shown_add(stream.endpoint, seq![frames[0]], seq![frames[1]]);
    lemma_shown_add(stream.endpoint, stream.all_frames(events), frames);
    assert(joined(events) + (Seq::<char>::empty() + Seq::<char>::empty()) =~= joined(events));
}

/// A collector appends each piece of text to what it has, as it is, and keeps its limit.
pub proof fn collectors_append(collector: CollectorView, delta: Seq<char>, arrival: ArrivalView)
    ensures
        collector.after(arrived(delta)).text == collector.text + delta,
        collector.after(arrival).max_bytes == collector.max_bytes,
        !(arrival matches Some(Ok(CodexEventView::TextDelta(_)))) ==> collector.after(arrival)
            == collector,
{
}

/// The arrival of a piece of text.
pub open spec fn arrived(delta: Seq<char>) -> ArrivalView {
    Some(Ok::<CodexEventView, GatewayErrorView>(CodexEventView::TextDelta(delta)))
}

/// What a collector makes of an arrival: it waits for more until the run is completed, has failed or
/// has sent more than is allowed. Only a run that sent too much has to be stopped.
pub proof fn collectors_wait_for_the_end(
    collector: CollectorView,
    delta: Seq<char>,
    message: Seq<char>,
    failure: GatewayErrorView,
    input_tokens: Option<u64>,
    output_tokens: Option<u64>,
)
    ensures
        encode_utf8(collector.text + delta).len() <= collector.max_bytes ==> collector.progress(
            arrived(delta),
        ) is Continue,
        encode_utf8(collector.text + delta).len() > collector.max_bytes ==> collector.progress(
            arrived(delta),
        ) == (ProgressView::Failed {
            error: GatewayErrorView::Backend("response exceeded configured limit"@),
            cancel: true,
        }),
        collector.progress(
            Some(Ok::<CodexEventView, GatewayErrorView>(CodexEventView::Completed)),
        ) is Completed,
        collector.progress(
            Some(
                Ok::<CodexEventView, GatewayErrorView>(
                    CodexEventView::Usage { input_tokens, output_tokens },
                ),
            ),
        ) is Continue,
        collector.progress(
            Some(Ok::<CodexEventView, GatewayErrorView>(CodexEventView::Failed(message))),
        ) == (ProgressView::Failed { error: GatewayErrorView::Backend(message), cancel: false }),
        collector.progress(Some(Err::<CodexEventView, GatewayErrorView>(failure))) == (
        ProgressView::Failed { error: failure, cancel: false }),
        collector.progress(None) == (ProgressView::Failed {
            error: GatewayErrorView::Backend("backend stream ended before completion"@),
            cancel: false,
        }),
{
}

/// The arrivals as events of a stream.
pub open spec fn events_of(arrivals: Seq<ArrivalView>) -> Seq<StreamEventView> {
    Seq::new(arrivals.len(), |i: int| StreamEventView::Arrived(arrivals[i]))
}

/// The text in the body of an answer that is given as a whole.
pub open spec fn answered_text(endpoint: Endpoint, body: JsonTree) -> Option<JsonTree> {
    match endpoint {
        Endpoint::Chat => json::member(
            json::member(
                conversations::element(json::member(Some(body), "choices"@), 0),
                "message"@,
            ),
            "content"@,
        ),
        Endpoint::Responses => json::member(
            conversations::element(
                json::member(
                    conversations::element(json::member(Some(body), "output"@), 0),
                    "content"@,
                ),
                0,
            ),
            "text"@,
        ),
    }
}

/// The body of an answer holds the text as it is, with the answer's name, the model and, for a chat,
/// the time.
pub proof fn answers_hold_the_text(exchange: ExchangeView, said: Seq<char>, now: u64)
    ensures
        ({
            let body = exchange.body(said, now);
            &&& answered_text(exchange.endpoint, body) == Some(JsonTree::Text(said))
            &&& json::member(Some(body), "id"@) == Some(JsonTree::Text(exchange.id))
            &&& json::member(Some(body), "model"@) == Some(JsonTree::Text(exchange.model))
            &&& match exchange.endpoint {
                Endpoint::Chat => {
                    let choices = json::member(Some(body), "choices"@);
                    let choice = conversations::element(choices, 0);
                    let message = json::member(choice, "message"@);
                    &&& conversations::has_members(
                        body,
                        set!["id"@, "object"@, "created"@, "model"@, "choices"@],
                    )
                    &&& json::member(Some(body), "object"@) == Some(
                        JsonTree::Text("chat.completion"@),
                    )
                    &&& json::member(Some(body), "created"@) == Some(JsonTree::Natural(now))
                    &&& choices matches Some(JsonTree::Array(list)) && list.len() == 1
                    &&& conversations::has_members(
                        choice->Some_0,
                        set!["index"@, "message"@, "finish_reason"@],
                    )
                    &&& json::member(choice, "index"@) == Some(JsonTree::Natural(0))
                    &&& json::member(choice, "finish_reason"@) == Some(JsonTree::Text("stop"@))
                    &&& conversations::has_members(message->Some_0, set!["role"@, "content"@])
                    &&& json::member(message, "role"@) == Some(JsonTree::Text("assistant"@))
                },
                Endpoint::Responses => {
                    let output = json::member(Some(body), "output"@);
                    let message = conversations::element(output, 0);
                    let content = json::member(message, "content"@);
                    let part = conversations::element(content, 0);
                    &&& conversations::has_members(
                        body,
                        set!["id"@, "object"@, "status"@, "model"@, "output"@],
                    )
                    &&& json::member(Some(body), "object"@) == Some(JsonTree::Text("response"@))
                    &&& json::member(Some(body), "status"@) == Some(JsonTree::Text("completed"@))
                    &&& output matches Some(JsonTree::Array(list)) && list.len() == 1
                    &&& conversations::has_members(
                        message->Some_0,
                        set!["type"@, "role"@, "content"@],
                    )
                    &&& json::member(message, "type"@) == Some(JsonTree::Text("message"@))
                    &&& json::member(message, "role"@) == Some(JsonTree::Text("assistant"@))
                    &&& content matches Some(JsonTree::Array(parts)) && parts.len() == 1
                    &&& conversations::has_members(part->Some_0, set!["type"@, "text"@])
                    &&& json::member(part, "type"@) == Some(JsonTree::Text("output_text"@))
                },
            }
        }),
{
    words::lemma_words_differ();
}

proof fn lemma_exchange_collects(exchange: ExchangeView, arrivals: Seq<ArrivalView>)
    ensures
        exchange.after_all(arrivals).collector.text == exchange.collector.text + joined(
            events_of(arrivals),
        ),
        exchange.after_all(arrivals).collector.max_bytes == exchange.collector.max_bytes,
        exchange.after_all(arrivals).endpoint == exchange.endpoint,
        exchange.after_all(arrivals).streaming == exchange.streaming,
        exchange.after_all(arrivals).id == exchange.id,
        exchange.after_all(arrivals).model == exchange.model,
    decreases arrivals.len(),
{
    let events = events_of(arrivals);
    if arrivals.len() == 0 {
        assert(exchange.collector.text + joined(events) =~= exchange.collector.text);
    } else {
        let front = arrivals.drop_last();
        assert(events.drop_last() =~= events_of(front));
        assert(events.last() == StreamEventView::Arrived(arrivals.last()));
        lemma_exchange_collects(exchange, front);
        assert(exchange.after_all(arrivals).collector.text =~= exchange.collector.text + joined(
            events,
        ));
    }
}

/// A run that is completed is answered with all the text that arrived, in order and as it is, and
/// need not be stopped. What it went on with until then is answered with nothing.
pub proof fn completed_runs_are_answered_with_their_text(
    exchange: ExchangeView,
    arrivals: Seq<ArrivalView>,
    now: u64,
)
    requires
        exchange.collector.text.len() == 0,
    ensures
        exchange.after_all(arrivals).answer(
            CollectEventView::Arrived(
                Some(Ok::<CodexEventView, GatewayErrorView>(CodexEventView::Completed)),
            ),
            now,
        ) matches Some(answer) && {
            &&& answer.reply.status == 200
            &&& !answer.cancel
            &&& answered_text(exchange.endpoint, answer.reply.body) == Some(
                JsonTree::Text(joined(events_of(arrivals))),
            )
            &&& json::member(Some(answer.reply.body), "id"@) == Some(JsonTree::Text(exchange.id))
            &&& json::member(Some(answer.reply.body), "model"@) == Some(
                JsonTree::Text(exchange.model),
            )
        },
{
    lemma_exchange_collects(exchange, arrivals);
    let end = exchange.after_all(arrivals);
    answers_hold_the_text(end, end.collector.text, now);
    assert(end.collector.text =~= joined(events_of(arrivals)));
}

/// A piece of text is answered with nothing while the text stays within the limit. Once it does not,
/// the run is stopped and its text is given up.
pub proof fn oversized_answers_are_given_up(exchange: ExchangeView, delta: Seq<char>, now: u64)
    ensures
        encode_utf8(exchange.collector.text + delta).len() <= exchange.collector.max_bytes
            ==> exchange.answer(CollectEventView::Arrived(arrived(delta)), now) is None,
        encode_utf8(exchange.collector.text + delta).len() > exchange.collector.max_bytes ==> {
            &&& exchange.answer(CollectEventView::Arrived(arrived(delta)), now) matches Some(answer)
            &&& answer.cancel
            &&& answer.reply.status == 502
            &&& is_error(
                answer.reply.body,
                "backend failure: "@ + "response exceeded configured limit"@,
                "backend_unavailable"@,
            )
        },
{
    words::lemma_words_differ();
}

/// A run that fails or breaks off is answered with its failure. One whose time is up is stopped too.
pub proof fn failed_answers_say_why(
    exchange: ExchangeView,
    message: Seq<char>,
    failure: GatewayErrorView,
    now: u64,
)
    ensures
        exchange.answer(
            CollectEventView::Arrived(
                Some(Ok::<CodexEventView, GatewayErrorView>(CodexEventView::Failed(message))),
            ),
            now,
        ) matches Some(answer) && !answer.cancel && answer.reply.status == 502 && is_error(
            answer.reply.body,
            "backend failure: "@ + message,
            "backend_unavailable"@,
        ),
        exchange.answer(
            CollectEventView::Arrived(Some(Err::<CodexEventView, GatewayErrorView>(failure))),
            now,
        ) matches Some(answer) && !answer.cancel && answer.reply == error::failure_reply(failure),
        exchange.answer(CollectEventView::Arrived(None), now) matches Some(answer)
            && !answer.cancel && answer.reply.status == 502 && is_error(
            answer.reply.body,
            "backend failure: "@ + "backend stream ended before completion"@,
            "backend_unavailable"@,
        ),
        exchange.answer(CollectEventView::TimedOut, now) matches Some(answer) && answer.cancel
            && answer.reply.status == 504 && is_error(
            answer.reply.body,
            "request timed out"@,
            "timeout_error"@,
        ),
        exchange.after(CollectEventView::TimedOut) == exchange,
{
    words::lemma_words_differ();
}

/// A run that was taken is streamed exactly where that was asked for: under the same name, for the
/// same model and with the same limit, of which nothing is used yet. One that was not taken is
/// refused, streamed or not, with the reason.
pub proof fn exchanges_open_as_asked(exchange: ExchangeView, failure: GatewayErrorView)
    ensures
        exchange.streaming ==> (exchange.opening(Ok(())) matches OpeningView::Stream(stream)
            && stream.endpoint == exchange.endpoint && stream.id == exchange.id && stream.model
            == exchange.model && stream.max_bytes == exchange.collector.max_bytes && stream.total
            == 0 && !stream.finished),
        !exchange.streaming ==> exchange.opening(Ok(())) is Collect,
        exchange.opening(Err(failure)) matches OpeningView::Refuse(reply) && reply.status == 503
            && is_error(reply.body, failure.message(), "backend_unavailable"@),
{
    words::lemma_words_differ();
}

/// A run that ends is answered with its body where it is completed, else with its failure.
pub proof fn ends_decide_the_reply(failure: GatewayErrorView, body: JsonTree)
    ensures
        completion::end_reply(RunEndView::Completed, body).status == 200,
        completion::end_reply(RunEndView::Completed, body).body == body,
        completion::end_reply(RunEndView::Failed(failure), body) == error::failure_reply(failure),
        completion::end_reply(RunEndView::TimedOut, body).status == 504 && is_error(
            completion::end_reply(RunEndView::TimedOut, body).body,
            "request timed out"@,
            "timeout_error"@,
        ),
{
    words::lemma_words_differ();
}

/// What is said of each failure.
pub proof fn failures_have_words(text: Seq<char>)
    ensures
        GatewayErrorView::Config(text).message() == text,
        GatewayErrorView::Invalid(text).message() == text,
        GatewayErrorView::Unavailable.message() == "backend unavailable"@,
        GatewayErrorView::Backend(text).message() == "backend failure: "@ + text,
        GatewayErrorView::Timeout.message() == "request timed out"@,
{
}

/// Each failure has its status and its kind. What is told of it is what is said of it.
pub proof fn failures_have_their_status(failure: GatewayErrorView)
    ensures
        is_error(
            error::failure_reply(failure).body,
            failure.message(),
            match failure {
                GatewayErrorView::Timeout => "timeout_error"@,
                GatewayErrorView::Invalid(_) => "invalid_request_error"@,
                _ => "backend_unavailable"@,
            },
        ),
        failure is Timeout ==> error::failure_reply(failure).status == 504,
        failure is Invalid ==> error::failure_reply(failure).status == 400,
        failure is Unavailable ==> error::failure_reply(failure).status == 503,
        failure is Backend || failure is Config ==> error::failure_reply(failure).status == 502,
{
    words::lemma_words_differ();
}

/// A request that cannot be read is turned down as too large where it is, else as malformed.
pub proof fn unreadable_requests_are_turned_down(status: u16)
    ensures
        status == 413 ==> error::rejection_reply(status).status == 413 && is_error(
            error::rejection_reply(status).body,
            "request body exceeds the configured limit"@,
            "invalid_request_error"@,
        ),
        status != 413 ==> error::rejection_reply(status).status == 400 && is_error(
            error::rejection_reply(status).body,
            "request body is not valid JSON for this endpoint"@,
            "invalid_request_error"@,
        ),
{
    words::lemma_words_differ();
}

/// A request for which there is no room is turned down as one too many, and one that comes after the
/// end as late.
pub proof fn requests_without_room_are_turned_down(refusal: PermitRefusal)
    ensures
        refusal is NoPermits ==> error::refusal_reply(refusal).status == 429 && is_error(
            error::refusal_reply(refusal).body,
            "too many concurrent requests"@,
            "rate_limit_error"@,
        ),
        refusal is Closed ==> error::refusal_reply(refusal).status == 503 && is_error(
            error::refusal_reply(refusal).body,
            "gateway is shutting down"@,
            "backend_unavailable"@,
        ),
{
    words::lemma_words_differ();
}

/// An error document holds what it is given, each under its own name, and null where nothing is
/// given.
pub proof fn errors_hold_what_they_are_given(
    status: u16,
    message: Seq<char>,
    kind: Seq<char>,
    param: Option<Seq<char>>,
    code: Option<Seq<char>>,
)
    ensures
        ({
            let reply = error::error_reply(status, message, kind, param, code);
            let told = json::member(Some(reply.body), "error"@);
            &&& reply.status == status
            &&& conversations::has_members(reply.body, set!["error"@])
            &&& conversations::has_members(
                told->Some_0,
                set!["message"@, "type"@, "param"@, "code"@],
            )
            &&& json::member(told, "message"@) == Some(JsonTree::Text(message))
            &&& json::member(told, "type"@) == Some(JsonTree::Text(kind))
            &&& param is None ==> json::member(told, "param"@) == Some(JsonTree::Null)
            &&& param matches Some(name) ==> json::member(told, "param"@) == Some(
                JsonTree::Text(name),
            )
            &&& code is None ==> json::member(told, "code"@) == Some(JsonTree::Null)
            &&& code matches Some(name) ==> json::member(told, "code"@) == Some(
                JsonTree::Text(name),
            )
        }),
{
    words::lemma_words_differ();
}

} // verus!
