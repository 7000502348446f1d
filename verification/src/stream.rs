//! Answers that are given piece by piece, as server-sent events.
use crate::completion;
use crate::completion::{Arrival, ArrivalView};
use crate::error;
use crate::error::GatewayErrorView;
use crate::json;
use crate::json::{JsonTree, Members};
use crate::protocol::{CodexEvent, CodexEventView};
use crate::text;
use serde_json::Value;
use vstd::prelude::*;
use vstd::string::*;

verus! {

/// The two ways to ask for an answer.
#[derive(Debug, Clone, Copy, PartialEq, Eq, Structural)]
pub enum Endpoint {
    Chat,
    Responses,
}

/// A server-sent event.
#[derive(Debug)]
pub enum Frame {
    /// A document.
    Data(Value),
    /// The mark that nothing follows.
    Done,
    /// A sign of life.
    KeepAlive,
}

/// A [`Frame`] with what its document says.
pub enum FrameView {
    Data(JsonTree),
    Done,
    KeepAlive,
}

impl View for Frame {
    type V = FrameView;

    open spec fn view(&self) -> FrameView {
        match self {
            Frame::Data(value) => FrameView::Data(json::value_tree(*value)),
            Frame::Done => FrameView::Done,
            Frame::KeepAlive => FrameView::KeepAlive,
        }
    }
}

/// The frames of a list, with what their documents say.
pub open spec fn frame_views(frames: Seq<Frame>) -> Seq<FrameView> {
    frames.map_values(|frame: Frame| frame@)
}

/// What a stream reacts to.
#[derive(Debug)]
pub enum StreamEvent {
    /// Something arrived from the run.
    Arrived(Arrival),
    /// Nothing arrived for a while.
    Quiet,
    /// The time of the request is up.
    TimedOut,
}

/// A [`StreamEvent`] with its texts as characters.
pub enum StreamEventView {
    Arrived(ArrivalView),
    Quiet,
    TimedOut,
}

impl View for StreamEvent {
    type V = StreamEventView;

    open spec fn view(&self) -> StreamEventView {
        match self {
            StreamEvent::Arrived(arrival) => StreamEventView::Arrived(
                completion::arrival_view(*arrival),
            ),
            StreamEvent::Quiet => StreamEventView::Quiet,
            StreamEvent::TimedOut => StreamEventView::TimedOut,
        }
    }
}

/// The state of an answer that is given piece by piece.
#[derive(Debug)]
pub struct EventStream {
    pub endpoint: Endpoint,
    pub id: String,
    pub model: String,
    /// How many bytes of text have been sent.
    pub total: usize,
    /// How many bytes of text may be sent.
    pub max_bytes: usize,
    /// Nothing more is to be sent.
    pub finished: bool,
}

/// An [`EventStream`] with its texts as characters.
pub struct EventStreamView {
    pub endpoint: Endpoint,
    pub id: Seq<char>,
    pub model: Seq<char>,
    pub total: usize,
    pub max_bytes: usize,
    pub finished: bool,
}

impl View for EventStream {
    type V = EventStreamView;

    open spec fn view(&self) -> EventStreamView {
        EventStreamView {
            endpoint: self.endpoint,
            id: self.id@,
            model: self.model@,
            total: self.total,
            max_bytes: self.max_bytes,
            finished: self.finished,
        }
    }
}

/// A chunk of a chat completion.
pub open spec fn chunk_tree(
    id: Seq<char>,
    model: Seq<char>,
    delta: JsonTree,
    finish_reason: JsonTree,
) -> JsonTree {
    JsonTree::Object(
        map![
            "id"@ => JsonTree::Text(id),
            "object"@ => JsonTree::Text("chat.completion.chunk"@),
            "model"@ => JsonTree::Text(model),
            "choices"@ => JsonTree::Array(
                seq![
                    JsonTree::Object(
                        map![
                            "index"@ => JsonTree::Natural(0),
                            "delta"@ => delta,
                            "finish_reason"@ => finish_reason,
                        ],
                    ),
                ],
            ),
        ],
    )
}

/// A chunk of a chat completion.
fn chunk(id: &str, model: &str, delta: Value, finish_reason: Value) -> (value: Value)
    ensures
        json::value_tree(value) == chunk_tree(
            id@,
            model@,
            json::value_tree(delta),
            json::value_tree(finish_reason),
        ),
{
    let choice: Value = Members::new().with("index", json::natural(0)).with("delta", delta).with(
        "finish_reason",
        finish_reason,
    ).build();
    Members::new().with("id", json::text(id)).with("object", json::text("chat.completion.chunk")).with(
        "model",
        json::text(model),
    ).with("choices", json::array_of_one(choice)).build()
}

/// An event of a response that has a kind alone.
pub open spec fn response_event_tree(kind: Seq<char>) -> JsonTree {
    JsonTree::Object(map!["type"@ => JsonTree::Text(kind)])
}

/// The frame that reports a failure.
pub open spec fn error_frame(message: Seq<char>, kind: Seq<char>) -> FrameView {
    FrameView::Data(error::error_tree(message, kind, None, None))
}

/// The frame that reports a failure.
pub fn sse_error(message: &str, kind: &str) -> (frame: Frame)
    ensures
        frame@ == error_frame(message@, kind@),
{
    Frame::Data(error::error_body(message, kind, None, None))
}

impl EventStreamView {
    /// No more text has been sent than is allowed.
    pub open spec fn wf(self) -> bool {
        self.total <= self.max_bytes
    }

    /// The frame that opens the answer.
    pub open spec fn opening(self) -> FrameView {
        match self.endpoint {
            Endpoint::Chat => FrameView::Data(
                chunk_tree(
                    self.id,
                    self.model,
                    JsonTree::Object(map!["role"@ => JsonTree::Text("assistant"@)]),
                    JsonTree::Null,
                ),
            ),
            Endpoint::Responses => FrameView::Data(
                JsonTree::Object(
                    map![
                        "type"@ => JsonTree::Text("response.created"@),
                        "response"@ => JsonTree::Object(
                            map![
                                "id"@ => JsonTree::Text(self.id),
                                "object"@ => JsonTree::Text("response"@),
                                "status"@ => JsonTree::Text("in_progress"@),
                                "model"@ => JsonTree::Text(self.model),
                            ],
                        ),
                    ],
                ),
            ),
        }
    }

    /// The frame that carries a piece of text.
    pub open spec fn piece(self, delta: Seq<char>) -> FrameView {
        match self.endpoint {
            Endpoint::Chat => FrameView::Data(
                chunk_tree(
                    self.id,
                    self.model,
                    JsonTree::Object(map!["content"@ => JsonTree::Text(delta)]),
                    JsonTree::Null,
                ),
            ),
            Endpoint::Responses => FrameView::Data(
                JsonTree::Object(
                    map![
                        "type"@ => JsonTree::Text("response.output_text.delta"@),
                        "delta"@ => JsonTree::Text(delta),
                    ],
                ),
            ),
        }
    }

    /// The frames that tell that the answer is complete.
    pub open spec fn completion(self) -> Seq<FrameView> {
        match self.endpoint {
            Endpoint::Chat => seq![
                FrameView::Data(
                    chunk_tree(
                        self.id,
                        self.model,
                        JsonTree::Object(Map::empty()),
                        JsonTree::Text("stop"@),
                    ),
                ),
                FrameView::Done,
            ],
            Endpoint::Responses => seq![
                FrameView::Data(response_event_tree("response.output_text.done"@)),
                FrameView::Data(response_event_tree("response.completed"@)),
            ],
        }
    }

    /// The frames that end an answer that grew too long. A chat ends without a word.
    pub open spec fn overflow(self) -> Seq<FrameView> {
        match self.endpoint {
            Endpoint::Chat => Seq::empty(),
            Endpoint::Responses => seq![
                error_frame("response exceeded configured limit"@, "backend_unavailable"@),
            ],
        }
    }

    /// The stream once it is over.
    pub open spec fn ended(self) -> EventStreamView {
        EventStreamView { finished: true, ..self }
    }

    /// The piece of text fits.
    pub open spec fn fits(self, delta: Seq<char>) -> bool {
        self.total + text::byte_len(delta) <= self.max_bytes
    }

    /// The stream after an event.
    pub open spec fn after(self, event: StreamEventView) -> EventStreamView {
        if self.finished {
            self
        } else {
            match event {
                StreamEventView::Arrived(Some(Ok(CodexEventView::TextDelta(delta)))) => if self.fits(
                    delta,
                ) {
                    EventStreamView {
                        total: (self.total + text::byte_len(delta)) as usize,
                        ..self
                    }
                } else {
                    self.ended()
                },
                StreamEventView::Arrived(
                    Some(Ok(CodexEventView::Usage { input_tokens, output_tokens })),
                ) => self,
                StreamEventView::Quiet => self,
                _ => self.ended(),
            }
        }
    }

    /// The frames that an event leads to.
    pub open spec fn frames(self, event: StreamEventView) -> Seq<FrameView> {
        if self.finished {
            Seq::empty()
        } else {
            match event {
                StreamEventView::Arrived(Some(Ok(CodexEventView::TextDelta(delta)))) => if self.fits(
                    delta,
                ) {
                    seq![self.piece(delta)]
                } else {
                    self.overflow()
                },
                StreamEventView::Arrived(Some(Ok(CodexEventView::Completed))) => self.completion(),
                StreamEventView::Arrived(
                    Some(Ok(CodexEventView::Usage { input_tokens, output_tokens })),
                ) => Seq::empty(),
                StreamEventView::Arrived(Some(Ok(CodexEventView::Failed(message)))) => seq![
                    error_frame(message, "backend_unavailable"@),
                ],
                StreamEventView::Arrived(Some(Err(failure))) => seq![
                    error_frame(failure.message(), "backend_unavailable"@),
                ],
                StreamEventView::Arrived(None) => seq![
                    error_frame(
                        "backend stream ended before completion"@,
                        "backend_unavailable"@,
                    ),
                ],
                StreamEventView::Quiet => seq![FrameView::KeepAlive],
                StreamEventView::TimedOut => seq![
                    error_frame("request timed out"@, "timeout_error"@),
                ],
            }
        }
    }
}

/// A list of one frame.
fn one(frame: Frame) -> (frames: Vec<Frame>)
    ensures
        frame_views(frames@) == seq![frame@],
{
    let mut frames: Vec<Frame> = Vec::new();
    frames.push(frame);
    proof {
        assert(frame_views(frames@) =~= seq![frame@]);
    }
    frames
}

/// A list of two frames.
fn two(first: Frame, second: Frame) -> (frames: Vec<Frame>)
    ensures
        frame_views(frames@) == seq![first@, second@],
{
    let mut frames: Vec<Frame> = Vec::new();
    frames.push(first);
    frames.push(second);
    proof {
        assert(frame_views(frames@) =~= seq![first@, second@]);
    }
    frames
}

/// A list of no frame.
fn none() -> (frames: Vec<Frame>)
    ensures
        frame_views(frames@) == Seq::<FrameView>::empty(),
{
    let frames: Vec<Frame> = Vec::new();
    proof {
        assert(frame_views(frames@) =~= Seq::<FrameView>::empty());
    }
    frames
}

impl EventStream {
    /// An answer of which nothing has been sent.
    pub fn new(endpoint: Endpoint, id: String, model: String, max_bytes: usize) -> (stream:
        EventStream)
        ensures
            stream@ == (EventStreamView {
                endpoint,
                id: id@,
                model: model@,
                total: 0,
                max_bytes,
                finished: false,
            }),
    {
        EventStream { endpoint, id, model, total: 0, max_bytes, finished: false }
    }

    /// The frame that opens the answer.
    pub fn open(&self) -> (frame: Frame)
        ensures
            frame@ == self@.opening(),
    {
        match self.endpoint {
            Endpoint::Chat => Frame::Data(
                chunk(
                    self.id.as_str(),
                    self.model.as_str(),
                    Members::new().with("role", json::text("assistant")).build(),
                    json::null(),
                ),
            ),
            Endpoint::Responses => {
                let response: Value = Members::new().with("id", json::text(self.id.as_str())).with(
                    "object",
                    json::text("response"),
                ).with("status", json::text("in_progress")).with(
                    "model",
                    json::text(self.model.as_str()),
                ).build();
                Frame::Data(
                    Members::new().with("type", json::text("response.created")).with(
                        "response",
                        response,
                    ).build(),
                )
            },
        }
    }

    /// The frame that carries a piece of text.
    fn text_frame(&self, delta: &str) -> (frame: Frame)
        ensures
            frame@ == self@.piece(delta@),
    {
        match self.endpoint {
            Endpoint::Chat => Frame::Data(
                chunk(
                    self.id.as_str(),
                    self.model.as_str(),
                    Members::new().with("content", json::text(delta)).build(),
                    json::null(),
                ),
            ),
            Endpoint::Responses => Frame::Data(
                Members::new().with("type", json::text("response.output_text.delta")).with(
                    "delta",
                    json::text(delta),
                ).build(),
            ),
        }
    }

    /// The frames that tell that the answer is complete.
    fn completion_frames(&self) -> (frames: Vec<Frame>)
        ensures
            frame_views(frames@) == self@.completion(),
    {
        match self.endpoint {
            Endpoint::Chat => two(
                Frame::Data(
                    chunk(
                        self.id.as_str(),
                        self.model.as_str(),
                        Members::new().build(),
                        json::text("stop"),
                    ),
                ),
                Frame::Done,
            ),
            Endpoint::Responses => two(
                Frame::Data(
                    Members::new().with("type", json::text("response.output_text.done")).build(),
                ),
                Frame::Data(Members::new().with("type", json::text("response.completed")).build()),
            ),
        }
    }

    /// Takes in a piece of text. It is sent at once where it fits, and ends the answer where it
    /// does not.
    fn take_text(&mut self, delta: &str) -> (frames: Vec<Frame>)
        requires
            old(self)@.wf(),
        ensures
            final(self)@ == (if old(self)@.fits(delta@) {
                EventStreamView {
                    total: (old(self)@.total + text::byte_len(delta@)) as usize,
                    ..old(self)@
                }
            } else {
                old(self)@.ended()
            }),
            frame_views(frames@) == (if old(self)@.fits(delta@) {
                seq![old(self)@.piece(delta@)]
            } else {
                old(self)@.overflow()
            }),
    {
        let size: usize = text::len_of(delta);
        if size > self.max_bytes - self.total {
            self.finished = true;
            return match self.endpoint {
                Endpoint::Chat => none(),
                Endpoint::Responses => one(
                    sse_error("response exceeded configured limit", "backend_unavailable"),
                ),
            };
        }
        self.total = self.total + size;
        one(self.text_frame(delta))
    }

    /// Takes in an event, and gives the frames to send. Once the stream is finished, nothing more
    /// is sent, and the run is to be cancelled.
    pub fn accept(&mut self, event: StreamEvent) -> (frames: Vec<Frame>)
        requires
            old(self)@.wf(),
        ensures
            final(self)@ == old(self)@.after(event@),
            final(self)@.wf(),
            frame_views(frames@) == old(self)@.frames(event@),
    {
        if self.finished {
            return none();
        }
        match event {
            StreamEvent::Arrived(Some(Ok(CodexEvent::TextDelta(delta)))) => self.take_text(
                delta.as_str(),
            ),
            StreamEvent::Arrived(Some(Ok(CodexEvent::Completed))) => {
                self.finished = true;
                self.completion_frames()
            },
            StreamEvent::Arrived(Some(Ok(CodexEvent::Usage { input_tokens, output_tokens }))) => none(),
            StreamEvent::Arrived(Some(Ok(CodexEvent::Failed(message)))) => {
                self.finished = true;
                one(sse_error(message.as_str(), "backend_unavailable"))
            },
            StreamEvent::Arrived(Some(Err(failure))) => {
                self.finished = true;
                let message: String = failure.to_string();
                one(sse_error(message.as_str(), "backend_unavailable"))
            },
            StreamEvent::Arrived(None) => {
                self.finished = true;
                one(sse_error("backend stream ended before completion", "backend_unavailable"))
            },
            StreamEvent::Quiet => one(Frame::KeepAlive),
            StreamEvent::TimedOut => {
                self.finished = true;
                one(sse_error("request timed out", "timeout_error"))
            },
        }
    }
}

impl EventStreamView {
    /// The stream after a sequence of events.
    pub open spec fn after_all(self, events: Seq<StreamEventView>) -> EventStreamView
        decreases events.len(),
    {
        if events.len() == 0 {
            self
        } else {
            self.after_all(events.drop_last()).after(events.last())
        }
    }

    /// The frames that a sequence of events leads to.
    pub open spec fn all_frames(self, events: Seq<StreamEventView>) -> Seq<FrameView>
        decreases events.len(),
    {
        if events.len() == 0 {
            Seq::empty()
        } else {
            self.all_frames(events.drop_last()) + self.after_all(events.drop_last()).frames(
                events.last(),
            )
        }
    }
}

/// A stream that is finished stays so and sends nothing more.
pub proof fn finished_streams_are_silent(stream: EventStreamView, events: Seq<StreamEventView>)
    requires
        stream.finished,
    ensures
        stream.after_all(events) == stream,
        stream.all_frames(events) == Seq::<FrameView>::empty(),
    decreases events.len(),
{
    if events.len() > 0 {
        finished_streams_are_silent(stream, events.drop_last());
        assert(stream.all_frames(events) =~= Seq::<FrameView>::empty());
    }
}

/// The mark that nothing follows is sent for a completed chat and for nothing else: not for a run
/// that failed, that stopped sending, that grew too long or whose time was up.
pub proof fn done_marks_completion_alone(stream: EventStreamView, event: StreamEventView)
    ensures
        stream.frames(event).contains(FrameView::Done) <==> !stream.finished && stream.endpoint is Chat
            && event == completed_event(),
{
    if !stream.finished && stream.endpoint is Chat && event == completed_event() {
        assert(stream.frames(event)[1] is Done);
    }
}

/// No more text is sent than is allowed.
pub proof fn streams_keep_their_limit(stream: EventStreamView, events: Seq<StreamEventView>)
    requires
        stream.wf(),
    ensures
        stream.after_all(events).wf(),
    decreases events.len(),
{
    if events.len() > 0 {
        streams_keep_their_limit(stream, events.drop_last());
    }
}

/// The arrivals of a run as events of a stream.
pub open spec fn as_events(arrivals: Seq<ArrivalView>) -> Seq<StreamEventView> {
    arrivals.map_values(|arrival: ArrivalView| StreamEventView::Arrived(arrival))
}

/// The frames that carry the pieces of text among the arrivals, in order.
pub open spec fn pieces(stream: EventStreamView, arrivals: Seq<ArrivalView>) -> Seq<FrameView>
    decreases arrivals.len(),
{
    if arrivals.len() == 0 {
        Seq::empty()
    } else {
        match arrivals.last() {
            Some(Ok(CodexEventView::TextDelta(delta))) => pieces(stream, arrivals.drop_last()).push(
                stream.piece(delta),
            ),
            _ => pieces(stream, arrivals.drop_last()),
        }
    }
}

proof fn lemma_pieces(stream: EventStreamView, arrivals: Seq<ArrivalView>)
    requires
        !stream.finished,
        stream.total == 0,
        completion::is_pending(arrivals, stream.max_bytes),
    ensures
        stream.all_frames(as_events(arrivals)) == pieces(stream, arrivals),
        stream.after_all(as_events(arrivals)) == (EventStreamView {
            total: text::byte_len(completion::arrived_text(arrivals)) as usize,
            ..stream
        }),
    decreases arrivals.len(),
{
    if arrivals.len() == 0 {
        assert(vstd::utf8::encode_utf8(Seq::<char>::empty()).len() == 0);
    } else {
        let front = arrivals.drop_last();
        let events = as_events(arrivals);
        assert(events.drop_last() =~= as_events(front));
        assert(completion::is_ongoing(arrivals[arrivals.len() - 1]));
        match arrivals.last() {
            Some(Ok(CodexEventView::TextDelta(delta))) => {
                text::lemma_byte_len_add(completion::arrived_text(front), delta);
            },
            _ => {},
        }
        assert(completion::is_pending(front, stream.max_bytes)) by {
            assert forall|i: int| 0 <= i < front.len() implies completion::is_ongoing(
                #[trigger] front[i],
            ) by {
                assert(front[i] == arrivals[i]);
            }
        }
        lemma_pieces(stream, front);
        assert(stream.all_frames(events) =~= pieces(stream, arrivals));
    }
}

/// The frames that say something: all but signs of life.
pub open spec fn telling(frames: Seq<FrameView>) -> Seq<FrameView>
    decreases frames.len(),
{
    if frames.len() == 0 {
        Seq::empty()
    } else if frames.last() is KeepAlive {
        telling(frames.drop_last())
    } else {
        telling(frames.drop_last()).push(frames.last())
    }
}

/// The events that are more than a quiet spell.
pub open spec fn lively(events: Seq<StreamEventView>) -> Seq<StreamEventView>
    decreases events.len(),
{
    if events.len() == 0 {
        Seq::empty()
    } else if events.last() is Quiet {
        lively(events.drop_last())
    } else {
        lively(events.drop_last()).push(events.last())
    }
}

proof fn lemma_telling_add(a: Seq<FrameView>, b: Seq<FrameView>)
    ensures
        telling(a + b) == telling(a) + telling(b),
    decreases b.len(),
{
    if b.len() == 0 {
        assert(a + b =~= a);
        assert(telling(a) + telling(b) =~= telling(a));
    } else {
        assert((a + b).drop_last() =~= a + b.drop_last());
        lemma_telling_add(a, b.drop_last());
        assert(telling(a + b) =~= telling(a) + telling(b));
    }
}

proof fn lemma_all_telling(frames: Seq<FrameView>)
    requires
        forall|i: int| 0 <= i < frames.len() ==> !(#[trigger] frames[i] is KeepAlive),
    ensures
        telling(frames) == frames,
    decreases frames.len(),
{
    if frames.len() > 0 {
        let front = frames.drop_last();
        assert forall|i: int| 0 <= i < front.len() implies !(#[trigger] front[i] is KeepAlive) by {
            assert(front[i] == frames[i]);
        }
        lemma_all_telling(front);
        assert(!(frames[frames.len() - 1] is KeepAlive));
        assert(front.push(frames.last()) =~= frames);
    }
}

proof fn lemma_pieces_are_telling(stream: EventStreamView, arrivals: Seq<ArrivalView>)
    ensures
        telling(pieces(stream, arrivals)) == pieces(stream, arrivals),
    decreases arrivals.len(),
{
    if arrivals.len() > 0 {
        lemma_pieces_are_telling(stream, arrivals.drop_last());
        let front = pieces(stream, arrivals.drop_last());
        match arrivals.last() {
            Some(Ok(CodexEventView::TextDelta(delta))) => {
                assert(front.push(stream.piece(delta)).drop_last() =~= front);
            },
            _ => {},
        }
    }
}

/// A quiet spell changes nothing and says nothing.
proof fn lemma_quiet_spells(stream: EventStreamView, events: Seq<StreamEventView>)
    ensures
        stream.after_all(events) == stream.after_all(lively(events)),
        telling(stream.all_frames(events)) == telling(stream.all_frames(lively(events))),
    decreases events.len(),
{
    if events.len() > 0 {
        let front = events.drop_last();
        let last = events.last();
        let before = stream.after_all(front);
        lemma_quiet_spells(stream, front);
        lemma_telling_add(stream.all_frames(front), before.frames(last));
        if last is Quiet {
            let spell = before.frames(last);
            assert(telling(Seq::<FrameView>::empty()) =~= Seq::<FrameView>::empty());
            if !before.finished {
                assert(spell.drop_last() =~= Seq::<FrameView>::empty());
            }
            assert(telling(spell) =~= Seq::<FrameView>::empty());
            assert(telling(stream.all_frames(front)) + telling(spell) =~= telling(
                stream.all_frames(front),
            ));
        } else {
            let short = lively(front);
            assert(short.push(last).drop_last() =~= short);
            lemma_telling_add(stream.all_frames(short), before.frames(last));
        }
    }
}

/// The event that tells that the run is completed.
pub open spec fn completed_event() -> StreamEventView {
    StreamEventView::Arrived(
        Some(Ok::<CodexEventView, GatewayErrorView>(CodexEventView::Completed)),
    )
}

/// A run that is completed within the limit is sent whole and in order: every piece of text as it
/// arrives, then the frames that tell that the answer is complete. Quiet spells in between bring
/// signs of life and nothing else.
pub proof fn completed_runs_are_streamed_in_order(
    stream: EventStreamView,
    arrivals: Seq<ArrivalView>,
    events: Seq<StreamEventView>,
)
    requires
        !stream.finished,
        stream.total == 0,
        completion::is_pending(arrivals, stream.max_bytes),
        lively(events) == as_events(arrivals).push(completed_event()),
    ensures
        telling(stream.all_frames(events)) == pieces(stream, arrivals) + stream.completion(),
        stream.after_all(events).finished,
{
    let short = lively(events);
    lemma_quiet_spells(stream, events);
    lemma_pieces(stream, arrivals);
    assert(short.drop_last() =~= as_events(arrivals));
    assert(stream.all_frames(short) == pieces(stream, arrivals) + stream.completion());
    lemma_telling_add(pieces(stream, arrivals), stream.completion());
    lemma_pieces_are_telling(stream, arrivals);
    lemma_all_telling(stream.completion());
}

/// An event that ends an answer without completing it: the run failed or stopped sending, or the
/// time of the request is up.
pub open spec fn is_failure(event: StreamEventView) -> bool {
    match event {
        StreamEventView::Arrived(Some(Ok(CodexEventView::Failed(_)))) => true,
        StreamEventView::Arrived(Some(Err(_))) => true,
        StreamEventView::Arrived(None) => true,
        StreamEventView::TimedOut => true,
        _ => false,
    }
}

/// The run tells that it is completed while the stream is live: nothing has failed or completed
/// before, and all the text has been within the limit.
pub open spec fn completes_at(
    stream: EventStreamView,
    events: Seq<StreamEventView>,
    i: int,
) -> bool {
    &&& 0 <= i < events.len()
    &&& events[i] == completed_event()
    &&& !stream.after_all(events.take(i)).finished
    &&& forall|j: int| 0 <= j < i ==> !is_failure(#[trigger] events[j]) && events[j]
        != completed_event()
}

proof fn lemma_live_streams(stream: EventStreamView, events: Seq<StreamEventView>)
    requires
        !stream.after_all(events).finished,
    ensures
        forall|j: int|
            0 <= j < events.len() ==> !is_failure(#[trigger] events[j]) && events[j]
                != completed_event(),
    decreases events.len(),
{
    if events.len() > 0 {
        let front = events.drop_last();
        lemma_live_streams(stream, front);
        assert forall|j: int| 0 <= j < events.len() implies !is_failure(#[trigger] events[j])
            && events[j] != completed_event() by {
            if j < front.len() {
                assert(events[j] == front[j]);
            }
        }
    }
}

/// Neither a piece of text nor an error nor a sign of life tells of completion.
proof fn lemma_frames_differ(
    stream: EventStreamView,
    delta: Seq<char>,
    message: Seq<char>,
    kind: Seq<char>,
)
    ensures
        !stream.completion().contains(stream.piece(delta)),
        !stream.completion().contains(error_frame(message, kind)),
        !stream.completion().contains(FrameView::KeepAlive),
{
    reveal_strlit("id");
    reveal_strlit("object");
    reveal_strlit("model");
    reveal_strlit("choices");
    reveal_strlit("error");
    reveal_strlit("type");
    reveal_strlit("delta");
    reveal_strlit("index");
    reveal_strlit("finish_reason");
    assert("id"@.len() == 2 && "object"@.len() == 6 && "model"@.len() == 5 && "choices"@.len() == 7);
    assert("error"@.len() == 5 && "type"@.len() == 4 && "delta"@.len() == 5 && "index"@.len() == 5);
    assert("finish_reason"@.len() == 13);
    assert("model"@[0] == 'm' && "error"@[0] == 'e' && "delta"@[0] == 'd' && "index"@[0] == 'i');
    let error = error_frame(message, kind)->Data_0->Object_0;
    assert(error.contains_key("error"@) && !error.contains_key("choices"@) && !error.contains_key(
        "type"@,
    ));
    let piece = stream.piece(delta)->Data_0->Object_0;
    match stream.endpoint {
        Endpoint::Chat => {
            let last = stream.completion()[0]->Data_0->Object_0;
            let choice = last["choices"@]->Array_0[0]->Object_0;
            let other = piece["choices"@]->Array_0[0]->Object_0;
            assert(last.contains_key("choices"@));
            assert(choice["finish_reason"@] is Text);
            assert(other["finish_reason"@] is Null);
        },
        Endpoint::Responses => {
            let first = stream.completion()[0]->Data_0->Object_0;
            let second = stream.completion()[1]->Data_0->Object_0;
            assert(piece.contains_key("delta"@));
            assert(first.contains_key("type"@) && !first.contains_key("delta"@));
            assert(second.contains_key("type"@) && !second.contains_key("delta"@));
        },
    }
}

/// An event brings a frame that tells of completion only where it is the completion itself.
proof fn lemma_completion_frames(
    stream: EventStreamView,
    event: StreamEventView,
    frame: FrameView,
)
    requires
        stream.frames(event).contains(frame),
        stream.completion().contains(frame),
    ensures
        !stream.finished,
        event == completed_event(),
{
    let i = choose|i: int|
        0 <= i < stream.frames(event).len() && stream.frames(event)[i] == frame;
    match event {
        StreamEventView::Arrived(Some(Ok(CodexEventView::TextDelta(delta)))) => {
            lemma_frames_differ(
                stream,
                delta,
                "response exceeded configured limit"@,
                "backend_unavailable"@,
            );
        },
        StreamEventView::Arrived(Some(Ok(CodexEventView::Failed(message)))) => {
            lemma_frames_differ(stream, Seq::empty(), message, "backend_unavailable"@);
        },
        StreamEventView::Arrived(Some(Err(failure))) => {
            lemma_frames_differ(stream, Seq::empty(), failure.message(), "backend_unavailable"@);
        },
        StreamEventView::Arrived(None) => {
            lemma_frames_differ(
                stream,
                Seq::empty(),
                "backend stream ended before completion"@,
                "backend_unavailable"@,
            );
        },
        StreamEventView::TimedOut => {
            lemma_frames_differ(stream, Seq::empty(), "request timed out"@, "timeout_error"@);
        },
        StreamEventView::Quiet => {
            lemma_frames_differ(stream, Seq::empty(), Seq::empty(), Seq::empty());
        },
        _ => {},
    }
}

proof fn lemma_endpoint_stays(stream: EventStreamView, events: Seq<StreamEventView>)
    ensures
        stream.after_all(events).completion() == stream.completion(),
    decreases events.len(),
{
    if events.len() > 0 {
        lemma_endpoint_stays(stream, events.drop_last());
    }
}

/// Over a whole stream, a frame that tells of completion, such as the last chunk of a chat or the
/// mark that nothing follows, is sent only if the run told that it was completed while the stream
/// was live, that is before any failure, close or deadline and before the text grew too long.
pub proof fn completion_is_told_of_completed_runs_alone(
    stream: EventStreamView,
    events: Seq<StreamEventView>,
    frame: FrameView,
)
    requires
        stream.all_frames(events).contains(frame),
        stream.completion().contains(frame),
    ensures
        exists|i: int| completes_at(stream, events, i),
    decreases events.len(),
{
    let all = stream.all_frames(events);
    let k = choose|k: int| 0 <= k < all.len() && all[k] == frame;
    let front = events.drop_last();
    let n = front.len() as int;
    let earlier = stream.all_frames(front);
    if k < earlier.len() {
        assert(earlier[k] == frame);
        completion_is_told_of_completed_runs_alone(stream, front, frame);
        let i = choose|i: int| completes_at(stream, front, i);
        assert(front.take(i) =~= events.take(i));
        assert forall|j: int| 0 <= j < i implies !is_failure(#[trigger] events[j]) && events[j]
            != completed_event() by {
            assert(events[j] == front[j]);
        }
        assert(completes_at(stream, events, i));
    } else {
        let before = stream.after_all(front);
        lemma_endpoint_stays(stream, front);
        assert(before.frames(events.last())[k - earlier.len()] == frame);
        lemma_completion_frames(before, events.last(), frame);
        lemma_live_streams(stream, front);
        assert(events.take(n) =~= front);
        assert forall|j: int| 0 <= j < n implies !is_failure(#[trigger] events[j]) && events[j]
            != completed_event() by {
            assert(events[j] == front[j]);
        }
        assert(completes_at(stream, events, n));
    }
}

proof fn lemma_split(stream: EventStreamView, a: Seq<StreamEventView>, b: Seq<StreamEventView>)
    ensures
        stream.after_all(a + b) == stream.after_all(a).after_all(b),
        stream.all_frames(a + b) == stream.all_frames(a) + stream.after_all(a).all_frames(b),
    decreases b.len(),
{
    if b.len() == 0 {
        assert(a + b =~= a);
        assert(stream.all_frames(a) + stream.after_all(a).all_frames(b) =~= stream.all_frames(a));
    } else {
        assert((a + b).drop_last() =~= a + b.drop_last());
        lemma_split(stream, a, b.drop_last());
        assert(stream.all_frames(a + b) =~= stream.all_frames(a) + stream.after_all(a).all_frames(b));
    }
}

/// The frame reports a failure.
pub open spec fn is_error_frame(frame: FrameView) -> bool {
    exists|message: Seq<char>, kind: Seq<char>| frame == #[trigger] error_frame(message, kind)
}

/// A live stream whose run fails or stops sending, or whose time is up, is over, and the last thing
/// that it says is an error, whatever happens after that.
pub proof fn failed_streams_end_with_an_error(
    stream: EventStreamView,
    events: Seq<StreamEventView>,
    i: int,
)
    requires
        0 <= i < events.len(),
        !stream.after_all(events.take(i)).finished,
        is_failure(events[i]),
    ensures
        stream.after_all(events).finished,
        telling(stream.all_frames(events)).len() > 0,
        is_error_frame(telling(stream.all_frames(events)).last()),
        forall|frame: FrameView| #[trigger]
            stream.completion().contains(frame) ==> !stream.all_frames(events).contains(frame),
{
    let front = events.take(i);
    let upto = events.take(i + 1);
    let rest = events.skip(i + 1);
    let before = stream.after_all(front);
    assert(upto.drop_last() =~= front);
    assert(events =~= upto + rest);
    lemma_split(stream, upto, rest);
    finished_streams_are_silent(stream.after_all(upto), rest);
    let said = before.frames(events[i]);
    assert(stream.all_frames(events) =~= stream.all_frames(front) + said);
    assert(said.len() == 1 && is_error_frame(said[0]));
    lemma_telling_add(stream.all_frames(front), said);
    lemma_all_telling(said);
    assert forall|frame: FrameView| #[trigger]
        stream.completion().contains(frame) implies !stream.all_frames(events).contains(frame) by {
        if stream.all_frames(events).contains(frame) {
            completion_is_told_of_completed_runs_alone(stream, events, frame);
            let k = choose|k: int| completes_at(stream, events, k);
            lemma_live_streams(stream, front);
            if k < i {
                assert(front[k] == events[k]);
            } else if k > i {
                assert(is_failure(events[i]));
            }
        }
    }
}

proof fn lemma_stream_is_pending(stream: EventStreamView, arrivals: Seq<ArrivalView>)
    requires
        !stream.finished,
        stream.total == 0,
    ensures
        !stream.after_all(as_events(arrivals)).finished <==> completion::is_pending(
            arrivals,
            stream.max_bytes,
        ),
    decreases arrivals.len(),
{
    if arrivals.len() == 0 {
        assert(vstd::utf8::encode_utf8(Seq::<char>::empty()).len() == 0);
    } else {
        let front = arrivals.drop_last();
        let events = as_events(arrivals);
        lemma_stream_is_pending(stream, front);
        assert(events.drop_last() =~= as_events(front));
        assert forall|i: int| 0 <= i < front.len() implies #[trigger] front[i] == arrivals[i] by {}
        match arrivals.last() {
            Some(Ok(CodexEventView::TextDelta(delta))) => {
                text::lemma_byte_len_add(completion::arrived_text(front), delta);
            },
            _ => {},
        }
        if completion::is_pending(front, stream.max_bytes) {
            lemma_pieces(stream, front);
            if completion::is_ongoing(arrivals.last()) {
                assert forall|i: int| 0 <= i < arrivals.len() implies completion::is_ongoing(
                    #[trigger] arrivals[i],
                ) by {
                    if i < front.len() {
                        assert(completion::is_ongoing(front[i]));
                    }
                }
            } else {
                assert(!completion::is_ongoing(arrivals[arrivals.len() - 1]));
            }
        } else if completion::is_pending(arrivals, stream.max_bytes) {
            assert forall|i: int| 0 <= i < front.len() implies completion::is_ongoing(
                #[trigger] front[i],
            ) by {
                assert(completion::is_ongoing(arrivals[i]));
            }
        }
    }
}

/// An answer that is streamed goes on for exactly as long as one that is collected: both end at
/// the same arrival.
pub proof fn streams_and_collectors_agree(stream: EventStreamView, arrivals: Seq<ArrivalView>)
    requires
        !stream.finished,
        stream.total == 0,
    ensures
        !stream.after_all(as_events(arrivals)).finished <==> completion::collected(
            arrivals,
            stream.max_bytes,
        ) is Pending,
{
    lemma_stream_is_pending(stream, arrivals);
    completion::pending_means_text_within_the_limit(arrivals, stream.max_bytes);
}

/// An answer that is being given piece by piece, with the permit under which its run goes on.
#[derive(Debug)]
pub struct OpenStream<P> {
    pub stream: EventStream,
    pub permit: P,
}

/// An [`OpenStream`] with the texts of its stream as characters.
pub struct OpenStreamView<P> {
    pub stream: EventStreamView,
    pub permit: P,
}

impl<P> View for OpenStream<P> {
    type V = OpenStreamView<P>;

    open spec fn view(&self) -> OpenStreamView<P> {
        OpenStreamView { stream: self.stream@, permit: self.permit }
    }
}

/// What is to be done once a stream has ended or its client is gone.
#[derive(Debug)]
pub struct Closing<P> {
    /// The permit, which is free again.
    pub permit: P,
    /// The run is to be cancelled.
    pub cancel: bool,
    /// The client went away before the end.
    pub disconnected: bool,
}

impl<P> OpenStreamView<P> {
    /// The stream after a sequence of events.
    pub open spec fn after_all(self, events: Seq<StreamEventView>) -> OpenStreamView<P> {
        OpenStreamView { stream: self.stream.after_all(events), ..self }
    }

    /// What is to be done once the stream has ended or its client is gone.
    pub open spec fn closing(self) -> Closing<P> {
        Closing { permit: self.permit, cancel: true, disconnected: !self.stream.finished }
    }
}

impl<P> OpenStream<P> {
    /// Opens a stream under a permit.
    pub fn new(stream: EventStream, permit: P) -> (open: OpenStream<P>)
        ensures
            open@ == (OpenStreamView { stream: stream@, permit }),
    {
        OpenStream { stream, permit }
    }

    /// Takes in an event, and gives the frames to send.
    pub fn accept(&mut self, event: StreamEvent) -> (frames: Vec<Frame>)
        requires
            old(self)@.stream.wf(),
        ensures
            final(self)@ == (OpenStreamView {
                stream: old(self)@.stream.after(event@),
                ..old(self)@
            }),
            final(self)@.stream.wf(),
            frame_views(frames@) == old(self)@.stream.frames(event@),
    {
        self.stream.accept(event)
    }

    /// Closes the stream, whether it has ended or its client is gone: the permit is given back and
    /// the run cancelled in every case.
    pub fn close(self) -> (closing: Closing<P>)
        ensures
            closing == self@.closing(),
    {
        Closing { permit: self.permit, cancel: true, disconnected: !self.stream.finished }
    }
}

/// Whatever has happened by the time that a stream is closed, its run is cancelled and the permit
/// that it was opened under is given back.
pub proof fn closed_streams_leave_nothing_behind<P>(
    open: OpenStreamView<P>,
    events: Seq<StreamEventView>,
)
    ensures
        open.after_all(events).closing().cancel,
        open.after_all(events).closing().permit == open.permit,
        open.after_all(events).closing().disconnected <==> !open.stream.after_all(events).finished,
{
}

} // verus!
