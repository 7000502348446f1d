//! A worker: it owns one serial `codex app-server` child and a queue of runs, of which only the
//! first is under way.
use crate::auth;
use crate::auth::AuthTracker;
use crate::error::{GatewayError, GatewayErrorView};
use crate::json;
use crate::json::JsonTree;
use crate::protocol;
use crate::protocol::{
    CodexEvent, CodexEventView, CodexRequest, CodexRequestView, ServerMessage, ServerMessageView,
};
use crate::text;
use serde_json::Value;
use std::collections::VecDeque;
use vstd::prelude::*;
use vstd::string::*;

verus! {

/// The delay before the first attempt to reconnect, in milliseconds.
pub const FIRST_DELAY_MS: u64 = 500;

/// The longest delay between attempts to reconnect, in milliseconds.
pub const LAST_DELAY_MS: u64 = 30_000;

/// The turn request id of a run whose turn has ended.
pub const FINISHED: u64 = 0;

/// Where the ids of requests to children come from.
#[derive(Debug)]
pub struct IdSource {
    pub next: u64,
}

/// The id after an id.
pub open spec fn following(id: u64) -> u64 {
    if id == u64::MAX {
        0
    } else {
        (id + 1) as u64
    }
}

impl IdSource {
    /// Ids from 2 on: 0 marks a run that has ended, and 1 is the id of the opening request.
    pub fn new() -> (ids: IdSource)
        ensures
            ids.next == 2,
    {
        IdSource { next: 2 }
    }

    /// An id. Ids start over once all have been handed out.
    pub fn next_id(&mut self) -> (id: u64)
        ensures
            id == old(self).next,
            final(self).next == following(old(self).next),
    {
        let id: u64 = self.next;
        self.next = if id == u64::MAX {
            0
        } else {
            id + 1
        };
        id
    }
}

/// A run in the queue of a worker. Its handle is what its client is reached by.
pub struct ActiveRun<R> {
    pub handle: R,
    pub request: CodexRequest,
    pub thread_request_id: u64,
    pub thread_sent: bool,
    pub turn_request_id: Option<u64>,
    pub thread_id: Option<String>,
    pub turn_id: Option<String>,
    pub interrupt_sent: bool,
}

/// An [`ActiveRun`] with its texts as characters.
pub struct RunView<R> {
    pub handle: R,
    pub request: CodexRequestView,
    pub thread_request_id: u64,
    pub thread_sent: bool,
    pub turn_request_id: Option<u64>,
    pub thread_id: Option<Seq<char>>,
    pub turn_id: Option<Seq<char>>,
    pub interrupt_sent: bool,
}

impl<R> View for ActiveRun<R> {
    type V = RunView<R>;

    open spec fn view(&self) -> RunView<R> {
        RunView {
            handle: self.handle,
            request: self.request@,
            thread_request_id: self.thread_request_id,
            thread_sent: self.thread_sent,
            turn_request_id: self.turn_request_id,
            thread_id: text::opt_view(self.thread_id),
            turn_id: text::opt_view(self.turn_id),
            interrupt_sent: self.interrupt_sent,
        }
    }
}

impl<R> RunView<R> {
    /// Nothing of this run has reached the child.
    pub open spec fn is_fresh(self) -> bool {
        !self.thread_sent && self.turn_request_id is None && self.thread_id is None && self.turn_id is None
            && !self.interrupt_sent
    }

    /// The turn of this run has ended.
    pub open spec fn is_finished(self) -> bool {
        self.turn_request_id == Some(FINISHED)
    }
}

/// What a line of the child leads to.
pub struct LineEffect {
    /// The events that the client of the first run is to get.
    pub events: Vec<CodexEvent>,
    /// What is to be sent to the child.
    pub send: Option<Value>,
    /// Why the connection cannot be used any longer.
    pub failure: Option<GatewayError>,
}

/// A [`LineEffect`] with what its parts say.
pub struct LineEffectView {
    pub events: Seq<CodexEventView>,
    pub send: Option<JsonTree>,
    pub failure: Option<GatewayErrorView>,
}

impl View for LineEffect {
    type V = LineEffectView;

    open spec fn view(&self) -> LineEffectView {
        LineEffectView {
            events: protocol::event_views(self.events@),
            send: match self.send {
                Some(value) => Some(json::value_tree(value)),
                None => None,
            },
            failure: match self.failure {
                Some(error) => Some(error@),
                None => None,
            },
        }
    }
}

/// No effect.
pub open spec fn no_effect() -> LineEffectView {
    LineEffectView { events: Seq::empty(), send: None, failure: None }
}

/// The effect of a line that breaks the protocol.
pub open spec fn protocol_failure(message: Seq<char>) -> LineEffectView {
    LineEffectView { failure: Some(GatewayErrorView::Backend(message)), ..no_effect() }
}

/// What a message of the child does to a run.
pub struct MessageStep<R> {
    pub run: RunView<R>,
    pub effect: LineEffectView,
    /// What the message tells of the credentials.
    pub outcome: Option<auth::TurnOutcome>,
    /// A request id is used up.
    pub takes_id: bool,
}

/// A message that does nothing.
pub open spec fn ignored<R>(run: RunView<R>) -> MessageStep<R> {
    MessageStep { run, effect: no_effect(), outcome: None, takes_id: false }
}

/// A message that breaks the protocol.
pub open spec fn broken<R>(run: RunView<R>, message: Seq<char>) -> MessageStep<R> {
    MessageStep { effect: protocol_failure(message), ..ignored(run) }
}

/// The answer to the request for a thread: the turn is asked for.
pub open spec fn thread_answered<R>(
    run: RunView<R>,
    message: ServerMessageView,
    id: u64,
) -> MessageStep<R> {
    match message.new_thread_id {
        None => broken(run, "thread/start returned no thread id"@),
        Some(thread_id) => MessageStep {
            run: RunView { thread_id: Some(thread_id), turn_request_id: Some(id), ..run },
            effect: LineEffectView {
                send: Some(
                    protocol::turn_start_tree(id, thread_id, run.request.model, run.request.input),
                ),
                ..no_effect()
            },
            outcome: None,
            takes_id: true,
        },
    }
}

/// The answer to the request for a turn.
pub open spec fn turn_answered<R>(run: RunView<R>, message: ServerMessageView) -> MessageStep<R> {
    if message.has_error {
        broken(run, "app-server turn failed"@)
    } else {
        match message.new_turn_id {
            None => broken(run, "turn/start returned no turn id"@),
            Some(turn_id) => ignored(RunView { turn_id: Some(turn_id), ..run }),
        }
    }
}

/// The event that reports the token counts of a turn, where there are any.
pub open spec fn usage_events(usage: Option<protocol::TokenUsage>) -> Seq<CodexEventView> {
    match usage {
        Some(usage) => seq![
            CodexEventView::Usage {
                input_tokens: usage.input_tokens,
                output_tokens: usage.output_tokens,
            },
        ],
        None => Seq::empty(),
    }
}

/// A turn that ended with one more event.
pub open spec fn turn_ended<R>(
    run: RunView<R>,
    message: ServerMessageView,
    event: CodexEventView,
    outcome: Option<auth::TurnOutcome>,
) -> MessageStep<R> {
    MessageStep {
        run: RunView { turn_request_id: Some(FINISHED), ..run },
        effect: LineEffectView { events: usage_events(message.usage).push(event), ..no_effect() },
        outcome,
        takes_id: false,
    }
}

/// Why a turn failed.
pub open spec fn turn_error(message: ServerMessageView) -> Seq<char> {
    match message.error_message {
        Some(error) => error,
        None => "Codex turn failed"@,
    }
}

/// The notification that the turn has ended.
pub open spec fn turn_completed<R>(run: RunView<R>, message: ServerMessageView) -> MessageStep<R> {
    if message.status == Some("completed"@) {
        turn_ended(run, message, CodexEventView::Completed, Some(auth::TurnOutcome::Succeeded))
    } else if message.status == Some("interrupted"@) {
        turn_ended(run, message, CodexEventView::Failed("Codex turn was interrupted"@), None)
    } else if message.status == Some("failed"@) {
        turn_ended(
            run,
            message,
            CodexEventView::Failed(turn_error(message)),
            Some(auth::TurnOutcome::Failed(turn_error(message))),
        )
    } else {
        MessageStep {
            effect: LineEffectView {
                events: usage_events(message.usage),
                ..protocol_failure("turn/completed had an invalid status"@)
            },
            ..ignored(run)
        }
    }
}

/// A notification. Only the text of the agent and the end of the turn matter.
pub open spec fn notified<R>(
    run: RunView<R>,
    method: Seq<char>,
    message: ServerMessageView,
) -> MessageStep<R> {
    if message.thread_id != run.thread_id {
        ignored(run)
    } else if method == "item/agentMessage/delta"@ {
        match message.delta {
            Some(delta) => MessageStep {
                effect: LineEffectView {
                    events: seq![CodexEventView::TextDelta(delta)],
                    ..no_effect()
                },
                ..ignored(run)
            },
            None => ignored(run),
        }
    } else if method == "turn/completed"@ {
        turn_completed(run, message)
    } else {
        ignored(run)
    }
}

/// What a message of the child does to the run that is under way, where `id` is the next id.
pub open spec fn after_message<R>(
    run: RunView<R>,
    message: ServerMessageView,
    id: u64,
) -> MessageStep<R> {
    if message.id == Some(run.thread_request_id) {
        thread_answered(run, message, id)
    } else if run.turn_request_id is Some && message.id == run.turn_request_id {
        turn_answered(run, message)
    } else {
        match message.method {
            Some(method) => notified(run, method, message),
            None => ignored(run),
        }
    }
}

/// The tracker after a message that told this of the credentials.
pub open spec fn tracker_after(
    tracker: auth::AuthTrackerView,
    outcome: Option<auth::TurnOutcome>,
    now: u64,
) -> auth::AuthTrackerView {
    match outcome {
        Some(outcome) => tracker.after(outcome, now),
        None => tracker,
    }
}

/// An effect with these events and nothing more.
fn events_only(events: Vec<CodexEvent>) -> (effect: LineEffect)
    ensures
        effect@ == (LineEffectView { events: protocol::event_views(events@), ..no_effect() }),
{
    LineEffect { events, send: None, failure: None }
}

/// An effect without events.
fn no_events(send: Option<Value>, failure: Option<GatewayError>) -> (effect: LineEffect)
    ensures
        effect@ == (LineEffectView {
            send: match send {
                Some(value) => Some(json::value_tree(value)),
                None => None,
            },
            failure: match failure {
                Some(error) => Some(error@),
                None => None,
            },
            ..no_effect()
        }),
{
    let events: Vec<CodexEvent> = Vec::new();
    proof {
        assert(protocol::event_views(events@) =~= Seq::<CodexEventView>::empty());
    }
    LineEffect { events, send, failure }
}

/// The effect of a line that breaks the protocol.
fn protocol_error(message: &str) -> (effect: LineEffect)
    ensures
        effect@ == protocol_failure(message@),
{
    no_events(None, Some(GatewayError::Backend(message.to_owned())))
}

/// The event that reports the token counts of a turn, where there are any.
fn usage_list(usage: Option<protocol::TokenUsage>) -> (events: Vec<CodexEvent>)
    ensures
        protocol::event_views(events@) == usage_events(usage),
{
    let mut events: Vec<CodexEvent> = Vec::new();
    if let Some(usage) = usage {
        events.push(
            CodexEvent::Usage {
                input_tokens: usage.input_tokens,
                output_tokens: usage.output_tokens,
            },
        );
    }
    proof {
        assert(protocol::event_views(events@) =~= usage_events(usage));
    }
    events
}

/// A list of events and one more.
fn push_event(events: &mut Vec<CodexEvent>, event: CodexEvent)
    ensures
        protocol::event_views(final(events)@) == protocol::event_views(old(events)@).push(event@),
{
    events.push(event);
    proof {
        assert(protocol::event_views(events@) =~= protocol::event_views(old(events)@).push(event@));
    }
}

impl<R> ActiveRun<R> {
    /// The turn of this run has ended.
    fn complete_turn(&mut self, message: &ServerMessage, auth: &mut AuthTracker, now: u64) -> (effect:
        LineEffect)
        ensures
            final(self)@ == turn_completed(old(self)@, message@).run,
            effect@ == turn_completed(old(self)@, message@).effect,
            final(auth)@ == tracker_after(
                old(auth)@,
                turn_completed(old(self)@, message@).outcome,
                now,
            ),
            !turn_completed(old(self)@, message@).takes_id,
    {
        let mut events: Vec<CodexEvent> = usage_list(message.usage);
        if text::is_text(&message.status, "completed") {
            auth.record_success(now);
            push_event(&mut events, CodexEvent::Completed);
        } else if text::is_text(&message.status, "interrupted") {
            push_event(&mut events, CodexEvent::Failed("Codex turn was interrupted".to_owned()));
        } else if text::is_text(&message.status, "failed") {
            let error: String = match &message.error_message {
                Some(error) => error.clone(),
                None => "Codex turn failed".to_owned(),
            };
            auth.record_failure(error.as_str(), now);
            push_event(&mut events, CodexEvent::Failed(error));
        } else {
            return LineEffect {
                events,
                send: None,
                failure: Some(
                    GatewayError::Backend("turn/completed had an invalid status".to_owned()),
                ),
            };
        }
        self.turn_request_id = Some(FINISHED);
        events_only(events)
    }

    /// A notification came.
    fn notify(
        &mut self,
        method: &str,
        message: &ServerMessage,
        auth: &mut AuthTracker,
        now: u64,
    ) -> (effect: LineEffect)
        ensures
            final(self)@ == notified(old(self)@, method@, message@).run,
            effect@ == notified(old(self)@, method@, message@).effect,
            final(auth)@ == tracker_after(
                old(auth)@,
                notified(old(self)@, method@, message@).outcome,
                now,
            ),
            !notified(old(self)@, method@, message@).takes_id,
    {
        if !text::same_optional(&message.thread_id, &self.thread_id) {
            return no_events(None, None);
        }
        if text::same_text(method, "item/agentMessage/delta") {
            match &message.delta {
                Some(delta) => {
                    let mut events: Vec<CodexEvent> = Vec::new();
                    events.push(CodexEvent::TextDelta(delta.clone()));
                    proof {
                        assert(protocol::event_views(events@) =~= seq![
                            CodexEventView::TextDelta(delta@),
                        ]);
                    }
                    events_only(events)
                },
                None => no_events(None, None),
            }
        } else if text::same_text(method, "turn/completed") {
            self.complete_turn(message, auth, now)
        } else {
            no_events(None, None)
        }
    }

    /// A message of the child came while this run is under way.
    pub fn handle_message(
        &mut self,
        message: &ServerMessage,
        ids: &mut IdSource,
        auth: &mut AuthTracker,
        now: u64,
    ) -> (effect: LineEffect)
        ensures
            ({
                let step = after_message(old(self)@, message@, old(ids).next);
                &&& final(self)@ == step.run
                &&& effect@ == step.effect
                &&& final(auth)@ == tracker_after(old(auth)@, step.outcome, now)
                &&& final(ids).next == if step.takes_id {
                    following(old(ids).next)
                } else {
                    old(ids).next
                }
            }),
    {
        if message.id == Some(self.thread_request_id) {
            match &message.new_thread_id {
                Some(thread_id) => {
                    self.thread_id = Some(thread_id.clone());
                    let turn_request_id: u64 = ids.next_id();
                    self.turn_request_id = Some(turn_request_id);
                    no_events(
                        Some(
                            protocol::turn_start(
                                turn_request_id,
                                thread_id.as_str(),
                                self.request.model.as_str(),
                                &self.request.input,
                            ),
                        ),
                        None,
                    )
                },
                None => protocol_error("thread/start returned no thread id"),
            }
        } else if self.turn_request_id.is_some() && message.id == self.turn_request_id {
            if message.has_error {
                return protocol_error("app-server turn failed");
            }
            match &message.new_turn_id {
                Some(turn_id) => {
                    self.turn_id = Some(turn_id.clone());
                    no_events(None, None)
                },
                None => protocol_error("turn/start returned no turn id"),
            }
        } else {
            match &message.method {
                Some(method) => self.notify(method.as_str(), message, auth, now),
                None => no_events(None, None),
            }
        }
    }
}

/// Why a child cannot be listened to any longer.
#[derive(Debug)]
pub enum OutputEnd {
    /// It closed its output.
    Closed,
    /// Its output cannot be read, for this reason.
    Unreadable(String),
}

/// The failure that the clients get when a child cannot be listened to any longer. One that closed
/// its output is gone, and another one is started.
pub fn lost_output(end: OutputEnd) -> (failure: GatewayError)
    ensures
        failure@ == (match end {
            OutputEnd::Closed => GatewayErrorView::Unavailable,
            OutputEnd::Unreadable(reason) => GatewayErrorView::Backend(reason@),
        }),
{
    match end {
        OutputEnd::Closed => GatewayError::Unavailable,
        OutputEnd::Unreadable(reason) => GatewayError::Backend(reason),
    }
}

/// What becomes of a connection after an event.
#[derive(Debug, Clone, Copy, PartialEq, Eq, Structural)]
pub enum Settlement {
    /// It stays in use.
    Keep,
    /// It failed: the child is killed and another one started.
    Reconnect,
    /// The child has served its turns and is idle: it is killed and another one started.
    Recycle,
}

/// What a look at the cancelled runs leads to.
pub struct Tick<R> {
    /// The runs that left the queue, each with what its client is to get.
    pub timed_out: Vec<(R, GatewayError)>,
    /// The request to stop the run that is under way.
    pub interrupt: Option<Value>,
}

/// The state of a worker.
pub struct Worker<R> {
    /// The runs, of which only the first is under way.
    pub queue: VecDeque<ActiveRun<R>>,
    /// There is a connection to a child that has finished its handshake.
    pub connected: bool,
    /// The delay before the next attempt to reconnect, in milliseconds.
    pub reconnect_delay_ms: u64,
    /// The worker has told that it is free and has got no run since.
    pub is_idle: bool,
    /// How many turns a child may serve; 0 for any number.
    pub max_turns: u64,
    /// How many turns the current child has served.
    pub turns_served: u64,
}

/// A [`Worker`] with its texts as characters.
#[verifier::ext_equal]
pub struct WorkerView<R> {
    pub queue: Seq<RunView<R>>,
    pub connected: bool,
    pub reconnect_delay_ms: u64,
    pub is_idle: bool,
    pub max_turns: u64,
    pub turns_served: u64,
}

/// The runs of a queue, with their texts as characters.
pub open spec fn run_views<R>(queue: Seq<ActiveRun<R>>) -> Seq<RunView<R>> {
    queue.map_values(|run: ActiveRun<R>| run@)
}

impl<R> View for Worker<R> {
    type V = WorkerView<R>;

    open spec fn view(&self) -> WorkerView<R> {
        WorkerView {
            queue: run_views(self.queue@),
            connected: self.connected,
            reconnect_delay_ms: self.reconnect_delay_ms,
            is_idle: self.is_idle,
            max_turns: self.max_turns,
            turns_served: self.turns_served,
        }
    }
}

/// A run that was just queued.
pub open spec fn fresh_run<R>(request: CodexRequestView, handle: R, id: u64) -> RunView<R> {
    RunView {
        handle,
        request,
        thread_request_id: id,
        thread_sent: false,
        turn_request_id: None,
        thread_id: None,
        turn_id: None,
        interrupt_sent: false,
    }
}

/// The runs that stay: the first one, and those that are not cancelled.
pub open spec fn kept<R>(queue: Seq<RunView<R>>, cancelled: Seq<bool>) -> Seq<RunView<R>>
    decreases queue.len(),
{
    if queue.len() == 0 {
        Seq::empty()
    } else {
        let front = kept(queue.drop_last(), cancelled);
        if queue.len() > 1 && cancelled[queue.len() - 1] {
            front
        } else {
            front.push(queue.last())
        }
    }
}

/// The handles of the runs that leave: those behind the first that are cancelled.
pub open spec fn dropped<R>(queue: Seq<RunView<R>>, cancelled: Seq<bool>) -> Seq<R>
    decreases queue.len(),
{
    if queue.len() == 0 {
        Seq::empty()
    } else {
        let front = dropped(queue.drop_last(), cancelled);
        if queue.len() > 1 && cancelled[queue.len() - 1] {
            front.push(queue.last().handle)
        } else {
            front
        }
    }
}

/// Every handle, with the failure that its client is to get.
pub open spec fn notices<R>(handles: Seq<R>, error: GatewayErrorView) -> Seq<(R, GatewayErrorView)> {
    handles.map_values(|handle: R| (handle, error))
}

/// A list of notices, with their texts as characters.
pub open spec fn notice_views<R>(list: Seq<(R, GatewayError)>) -> Seq<(R, GatewayErrorView)> {
    list.map_values(|notice: (R, GatewayError)| (notice.0, notice.1@))
}

/// The handles of a queue.
pub open spec fn handles<R>(queue: Seq<RunView<R>>) -> Seq<R> {
    queue.map_values(|run: RunView<R>| run.handle)
}

impl<R> WorkerView<R> {
    /// A worker that has not connected yet.
    pub open spec fn initial(max_turns: u64) -> WorkerView<R> {
        WorkerView {
            queue: Seq::empty(),
            connected: false,
            reconnect_delay_ms: FIRST_DELAY_MS,
            is_idle: false,
            max_turns,
            turns_served: 0,
        }
    }

    /// What holds of a worker at all times: one that is idle has no run, nothing of the runs behind
    /// the first has reached the child, and the delay stays within its bounds.
    pub open spec fn wf(self) -> bool {
        &&& self.is_idle ==> self.queue.len() == 0
        &&& forall|i: int| 1 <= i < self.queue.len() ==> (#[trigger] self.queue[i]).is_fresh()
        &&& FIRST_DELAY_MS <= self.reconnect_delay_ms <= LAST_DELAY_MS
    }

    /// A child finished its handshake.
    pub open spec fn after_connect(self) -> WorkerView<R> {
        WorkerView {
            connected: true,
            reconnect_delay_ms: FIRST_DELAY_MS,
            turns_served: 0,
            ..self
        }
    }

    /// No child could be had.
    pub open spec fn after_connect_failure(self) -> WorkerView<R> {
        WorkerView {
            connected: false,
            reconnect_delay_ms: if 2 * self.reconnect_delay_ms <= LAST_DELAY_MS {
                (2 * self.reconnect_delay_ms) as u64
            } else {
                LAST_DELAY_MS
            },
            ..self
        }
    }

    /// The worker is free and has not told so yet.
    pub open spec fn announces(self) -> bool {
        self.queue.len() == 0 && !self.is_idle
    }

    /// The worker told that it is free, where it is.
    pub open spec fn after_announcement(self) -> WorkerView<R> {
        WorkerView { is_idle: self.is_idle || self.queue.len() == 0, ..self }
    }

    /// The worker got a run.
    pub open spec fn after_enqueue(self, request: CodexRequestView, handle: R, id: u64) -> WorkerView<
        R,
    > {
        WorkerView {
            queue: self.queue.push(fresh_run(request, handle, id)),
            is_idle: false,
            ..self
        }
    }

    /// The request for a thread that the first run still has to make.
    pub open spec fn due_thread_start(self) -> Option<JsonTree> {
        if self.queue.len() > 0 && !self.queue[0].thread_sent {
            Some(
                protocol::thread_start_tree(
                    self.queue[0].thread_request_id,
                    self.queue[0].request.model,
                ),
            )
        } else {
            None
        }
    }

    /// The first run is replaced.
    pub open spec fn with_first(self, run: RunView<R>) -> WorkerView<R> {
        WorkerView { queue: self.queue.update(0, run), ..self }
    }

    /// The request for a thread reached the child.
    pub open spec fn after_thread_start(self) -> WorkerView<R> {
        if self.queue.len() > 0 {
            self.with_first(RunView { thread_sent: true, ..self.queue[0] })
        } else {
            self
        }
    }

    /// What a message does to the first run, where there is one.
    pub open spec fn step_on(self, message: ServerMessageView, id: u64) -> Option<MessageStep<R>> {
        if self.queue.len() > 0 {
            Some(after_message(self.queue[0], message, id))
        } else {
            None
        }
    }

    /// A message of the child came.
    pub open spec fn after_server_message(self, message: ServerMessageView, id: u64) -> WorkerView<
        R,
    > {
        match self.step_on(message, id) {
            Some(step) => self.with_first(step.run),
            None => self,
        }
    }

    /// All runs were failed.
    pub open spec fn after_failure(self) -> WorkerView<R> {
        WorkerView { queue: Seq::empty(), ..self }
    }

    /// The cancelled runs behind the first left.
    pub open spec fn after_drop(self, cancelled: Seq<bool>) -> WorkerView<R> {
        WorkerView { queue: kept(self.queue, cancelled), ..self }
    }

    /// The request to stop the first run, where it is cancelled, under way and not stopped yet.
    pub open spec fn due_interrupt(self, cancelled: Seq<bool>, id: u64) -> Option<JsonTree> {
        if self.queue.len() > 0 && cancelled[0] && !self.queue[0].interrupt_sent {
            match (self.queue[0].thread_id, self.queue[0].turn_id) {
                (Some(thread_id), Some(turn_id)) => Some(
                    protocol::interrupt_tree(id, thread_id, turn_id),
                ),
                _ => None,
            }
        } else {
            None
        }
    }

    /// The request to stop the first run reached the child.
    pub open spec fn after_interrupt(self) -> WorkerView<R> {
        if self.queue.len() > 0 {
            self.with_first(RunView { interrupt_sent: true, ..self.queue[0] })
        } else {
            self
        }
    }

    /// The first run has ended.
    pub open spec fn has_finished(self) -> bool {
        self.queue.len() > 0 && self.queue[0].is_finished()
    }

    /// The runs that are left once the first has gone, where it has ended.
    pub open spec fn remaining(self) -> Seq<RunView<R>> {
        if self.has_finished() {
            self.queue.drop_first()
        } else {
            self.queue
        }
    }

    /// How many turns the child has served, with the one that has just ended.
    pub open spec fn served(self) -> int {
        if self.has_finished() {
            self.turns_served + 1
        } else {
            self.turns_served as int
        }
    }

    /// What becomes of the connection.
    pub open spec fn settlement(self, connection_failed: bool) -> Settlement {
        if connection_failed {
            Settlement::Reconnect
        } else if self.has_finished() && self.max_turns > 0 && self.served() >= self.max_turns
            && self.remaining().len() == 0 {
            Settlement::Recycle
        } else {
            Settlement::Keep
        }
    }

    /// The worker once the event has been dealt with.
    pub open spec fn after_settlement(self, connection_failed: bool) -> WorkerView<R> {
        WorkerView {
            queue: self.remaining(),
            turns_served: self.served() as u64,
            connected: self.connected && self.settlement(connection_failed) is Keep,
            ..self
        }
    }
}

impl<R> Worker<R> {
    /// A worker that has not connected yet.
    pub fn new(max_turns: u64) -> (worker: Worker<R>)
        ensures
            worker@ == WorkerView::<R>::initial(max_turns),
    {
        let queue: VecDeque<ActiveRun<R>> = VecDeque::new();
        proof {
            assert(run_views(queue@) =~= Seq::<RunView<R>>::empty());
        }
        Worker {
            queue,
            connected: false,
            reconnect_delay_ms: FIRST_DELAY_MS,
            is_idle: false,
            max_turns,
            turns_served: 0,
        }
    }

    /// A child finished its handshake.
    pub fn connected(&mut self)
        ensures
            final(self)@ == old(self)@.after_connect(),
    {
        self.connected = true;
        self.reconnect_delay_ms = FIRST_DELAY_MS;
        self.turns_served = 0;
    }

    /// No child could be had. The next attempt is due after this many milliseconds, and the delay
    /// after that one is twice as long, up to the longest.
    pub fn connect_failed(&mut self) -> (delay_ms: u64)
        ensures
            delay_ms == old(self)@.reconnect_delay_ms,
            final(self)@ == old(self)@.after_connect_failure(),
    {
        let delay_ms: u64 = self.reconnect_delay_ms;
        self.connected = false;
        self.reconnect_delay_ms = if delay_ms <= LAST_DELAY_MS / 2 {
            delay_ms * 2
        } else {
            LAST_DELAY_MS
        };
        delay_ms
    }

    /// Whether the worker has to tell that it is free. It does so once for every time that it
    /// becomes free.
    pub fn announce(&mut self) -> (announced: bool)
        ensures
            announced == old(self)@.announces(),
            final(self)@ == old(self)@.after_announcement(),
    {
        if self.queue.len() == 0 && !self.is_idle {
            self.is_idle = true;
            true
        } else {
            false
        }
    }

    /// Queues a run.
    pub fn enqueue(&mut self, request: CodexRequest, handle: R, ids: &mut IdSource)
        ensures
            final(self)@ == old(self)@.after_enqueue(request@, handle, old(ids).next),
            final(ids).next == following(old(ids).next),
    {
        self.is_idle = false;
        let run: ActiveRun<R> = ActiveRun {
            handle,
            request,
            thread_request_id: ids.next_id(),
            thread_sent: false,
            turn_request_id: None,
            thread_id: None,
            turn_id: None,
            interrupt_sent: false,
        };
        let ghost queued = run@;
        self.queue.push_back(run);
        proof {
            assert(run_views(self.queue@) =~= run_views(old(self).queue@).push(queued));
        }
    }

    /// The request for a thread that the first run still has to make.
    pub fn thread_start(&self) -> (due: Option<Value>)
        ensures
            match due {
                Some(value) => self@.due_thread_start() == Some(json::value_tree(value)),
                None => self@.due_thread_start() is None,
            },
    {
        if self.queue.len() == 0 {
            return None;
        }
        let first: &ActiveRun<R> = &self.queue[0];
        if first.thread_sent {
            None
        } else {
            Some(protocol::thread_start(first.thread_request_id, first.request.model.as_str()))
        }
    }

    /// The request for a thread reached the child.
    pub fn thread_start_sent(&mut self)
        ensures
            final(self)@ == old(self)@.after_thread_start(),
    {
        if let Some(mut first) = self.queue.pop_front() {
            first.thread_sent = true;
            let ghost changed = first@;
            self.queue.push_front(first);
            proof {
                assert(run_views(self.queue@) =~= run_views(old(self).queue@).update(0, changed));
            }
        }
    }

    /// A message of the child came.
    pub fn handle_server_message(
        &mut self,
        message: &ServerMessage,
        ids: &mut IdSource,
        auth: &mut AuthTracker,
        now: u64,
    ) -> (effect: LineEffect)
        ensures
            final(self)@ == old(self)@.after_server_message(message@, old(ids).next),
            match old(self)@.step_on(message@, old(ids).next) {
                Some(step) => {
                    &&& effect@ == step.effect
                    &&& final(auth)@ == tracker_after(old(auth)@, step.outcome, now)
                    &&& final(ids).next == if step.takes_id {
                        following(old(ids).next)
                    } else {
                        old(ids).next
                    }
                },
                None => {
                    &&& effect@ == no_effect()
                    &&& final(auth)@ == old(auth)@
                    &&& final(ids).next == old(ids).next
                },
            },
    {
        match self.queue.pop_front() {
            Some(mut first) => {
                let effect: LineEffect = first.handle_message(message, ids, auth, now);
                let ghost changed = first@;
                self.queue.push_front(first);
                proof {
                    assert(run_views(self.queue@) =~= run_views(old(self).queue@).update(0, changed));
                }
                effect
            },
            None => no_events(None, None),
        }
    }

    /// A line of the child came. A line that is no JSON breaks the connection, with or without a
    /// run.
    pub fn handle_server_line(
        &mut self,
        line: &str,
        ids: &mut IdSource,
        auth: &mut AuthTracker,
        now: u64,
    ) -> (effect: LineEffect)
        ensures
            match json::json_parse(line@) {
                None => {
                    &&& final(self)@ == old(self)@
                    &&& effect@ == protocol_failure("invalid app-server JSON"@)
                    &&& final(auth)@ == old(auth)@
                    &&& final(ids).next == old(ids).next
                },
                Some(tree) => {
                    let message = protocol::message_of(tree);
                    &&& final(self)@ == old(self)@.after_server_message(message, old(ids).next)
                    &&& match old(self)@.step_on(message, old(ids).next) {
                        Some(step) => {
                            &&& effect@ == step.effect
                            &&& final(auth)@ == tracker_after(old(auth)@, step.outcome, now)
                            &&& final(ids).next == if step.takes_id {
                                following(old(ids).next)
                            } else {
                                old(ids).next
                            }
                        },
                        None => {
                            &&& effect@ == no_effect()
                            &&& final(auth)@ == old(auth)@
                            &&& final(ids).next == old(ids).next
                        },
                    }
                },
            },
    {
        match json::parse_text(line) {
            Ok(value) => {
                let message: ServerMessage = ServerMessage::read(&value);
                self.handle_server_message(&message, ids, auth, now)
            },
            Err(_) => protocol_error("invalid app-server JSON"),
        }
    }

    /// Fails every run, first to last. The clients get `error`.
    pub fn fail_active(&mut self, error: &GatewayError) -> (failed: Vec<(R, GatewayError)>)
        ensures
            final(self)@ == old(self)@.after_failure(),
            notice_views(failed@) == notices(handles(old(self)@.queue), error@),
    {
        let mut failed: Vec<(R, GatewayError)> = Vec::new();
        let ghost all = self.queue@;
        let ghost mut n: int = 0;
        while self.queue.len() > 0
            invariant
                0 <= n <= all.len(),
                self.queue@ == all.skip(n),
                notice_views(failed@) == notices(handles(run_views(all.take(n))), error@),
                self.connected == old(self).connected,
                self.reconnect_delay_ms == old(self).reconnect_delay_ms,
                self.is_idle == old(self).is_idle,
                self.max_turns == old(self).max_turns,
                self.turns_served == old(self).turns_served,
            decreases self.queue@.len(),
        {
            if let Some(run) = self.queue.pop_front() {
                let ghost before = notice_views(failed@);
                let ghost handle = run.handle;
                failed.push((run.handle, error.clone()));
                proof {
                    assert(notice_views(failed@) =~= before.push((handle, error@)));
                    assert(all.take(n + 1) =~= all.take(n).push(all[n]));
                    assert(notices(handles(run_views(all.take(n + 1))), error@) =~= notices(
                        handles(run_views(all.take(n))),
                        error@,
                    ).push((handle, error@)));
                    assert(self.queue@ =~= all.skip(n + 1));
                    n = n + 1;
                }
            }
        }
        proof {
            assert(all.take(n) =~= all);
            assert(run_views(self.queue@) =~= Seq::<RunView<R>>::empty());
        }
        failed
    }

    /// Looks at the cancelled runs, where `cancelled` tells of each run whether it is. One that is
    /// still queued leaves and never reaches Codex. The one that is under way keeps its place until
    /// its turn ends, and is asked to stop as soon as its turn is known.
    pub fn tick(&mut self, cancelled: &[bool], ids: &mut IdSource) -> (tick: Tick<R>)
        requires
            cancelled@.len() == old(self).queue@.len(),
        ensures
            final(self)@ == old(self)@.after_drop(cancelled@),
            notice_views(tick.timed_out@) == notices(
                dropped(old(self)@.queue, cancelled@),
                GatewayErrorView::Timeout,
            ),
            match tick.interrupt {
                Some(value) => {
                    &&& old(self)@.due_interrupt(cancelled@, old(ids).next) == Some(
                        json::value_tree(value),
                    )
                    &&& final(ids).next == following(old(ids).next)
                },
                None => {
                    &&& old(self)@.due_interrupt(cancelled@, old(ids).next) is None
                    &&& final(ids).next == old(ids).next
                },
            },
    {
        let timed_out: Vec<(R, GatewayError)> = self.drop_cancelled(cancelled);
        proof {
            lemma_first_stays(old(self)@.queue, cancelled@);
        }
        let interrupt: Option<Value> = if self.queue.len() > 0 && cancelled[0] {
            self.interrupt(ids)
        } else {
            None
        };
        Tick { timed_out, interrupt }
    }

    /// Removes the cancelled runs behind the first.
    fn drop_cancelled(&mut self, cancelled: &[bool]) -> (timed_out: Vec<(R, GatewayError)>)
        requires
            cancelled@.len() == old(self).queue@.len(),
        ensures
            final(self)@ == old(self)@.after_drop(cancelled@),
            notice_views(timed_out@) == notices(
                dropped(old(self)@.queue, cancelled@),
                GatewayErrorView::Timeout,
            ),
    {
        let mut timed_out: Vec<(R, GatewayError)> = Vec::new();
        let mut rest: VecDeque<ActiveRun<R>> = VecDeque::new();
        let mut i: usize = 0;
        let ghost all = self.queue@;
        proof {
            assert(run_views(rest@) =~= Seq::<RunView<R>>::empty());
            assert(run_views(all.take(0)) =~= Seq::<RunView<R>>::empty());
            assert(notice_views(timed_out@) =~= Seq::<(R, GatewayErrorView)>::empty());
            assert(notices(Seq::<R>::empty(), GatewayErrorView::Timeout) =~= Seq::empty());
        }
        while i < cancelled.len()
            invariant
                cancelled@.len() == all.len(),
                i <= all.len(),
                self.queue@ == all.skip(i as int),
                run_views(rest@) == kept(run_views(all.take(i as int)), cancelled@),
                notice_views(timed_out@) == notices(
                    dropped(run_views(all.take(i as int)), cancelled@),
                    GatewayErrorView::Timeout,
                ),
                self.connected == old(self).connected,
                self.reconnect_delay_ms == old(self).reconnect_delay_ms,
                self.is_idle == old(self).is_idle,
                self.max_turns == old(self).max_turns,
                self.turns_served == old(self).turns_served,
            decreases all.len() - i,
        {
            if let Some(run) = self.queue.pop_front() {
                proof {
                    let next = run_views(all.take(i + 1));
                    assert(next.drop_last() =~= run_views(all.take(i as int)));
                    assert(next.last() == run@);
                    assert(self.queue@ =~= all.skip(i + 1));
                }
                if i > 0 && cancelled[i] {
                    let ghost before = notice_views(timed_out@);
                    let ghost gone = dropped(run_views(all.take(i as int)), cancelled@);
                    let ghost handle = run.handle;
                    timed_out.push((run.handle, GatewayError::Timeout));
                    proof {
                        assert(notice_views(timed_out@) =~= before.push(
                            (handle, GatewayErrorView::Timeout),
                        ));
                        assert(notices(gone.push(handle), GatewayErrorView::Timeout) =~= notices(
                            gone,
                            GatewayErrorView::Timeout,
                        ).push((handle, GatewayErrorView::Timeout)));
                    }
                } else {
                    let ghost before = run_views(rest@);
                    let ghost stays = run@;
                    rest.push_back(run);
                    proof {
                        assert(run_views(rest@) =~= before.push(stays));
                    }
                }
            }
            i = i + 1;
        }
        proof {
            assert(all.take(i as int) =~= all);
        }
        self.queue = rest;
        timed_out
    }

    /// The request to stop the first run, where it is under way and not stopped yet.
    fn interrupt(&self, ids: &mut IdSource) -> (due: Option<Value>)
        requires
            self.queue@.len() > 0,
        ensures
            match due {
                Some(value) => {
                    &&& self@.due_interrupt(seq![true], old(ids).next) == Some(
                        json::value_tree(value),
                    )
                    &&& final(ids).next == following(old(ids).next)
                },
                None => {
                    &&& self@.due_interrupt(seq![true], old(ids).next) is None
                    &&& final(ids).next == old(ids).next
                },
            },
    {
        let first: &ActiveRun<R> = &self.queue[0];
        if first.interrupt_sent {
            return None;
        }
        match (&first.thread_id, &first.turn_id) {
            (Some(thread_id), Some(turn_id)) => Some(
                protocol::turn_interrupt(ids.next_id(), thread_id.as_str(), turn_id.as_str()),
            ),
            _ => None,
        }
    }

    /// The request to stop the first run reached the child.
    pub fn interrupt_sent(&mut self)
        ensures
            final(self)@ == old(self)@.after_interrupt(),
    {
        if let Some(mut first) = self.queue.pop_front() {
            first.interrupt_sent = true;
            let ghost changed = first@;
            self.queue.push_front(first);
            proof {
                assert(run_views(self.queue@) =~= run_views(old(self).queue@).update(0, changed));
            }
        }
    }

    /// Ends the work on an event: a first run whose turn has ended leaves, and a child that failed
    /// or that has served its turns is given up. A child is given up for its age only while the
    /// worker has no run.
    pub fn settle(&mut self, connection_failed: bool) -> (settlement: Settlement)
        requires
            old(self).turns_served < u64::MAX,
        ensures
            settlement == old(self)@.settlement(connection_failed),
            final(self)@ == old(self)@.after_settlement(connection_failed),
    {
        let mut run_completed: bool = false;
        if self.queue.len() > 0 {
            run_completed = self.queue[0].turn_request_id == Some(FINISHED);
        }
        if run_completed {
            self.queue.pop_front();
            self.turns_served = self.turns_served + 1;
            proof {
                assert(run_views(self.queue@) =~= run_views(old(self).queue@).drop_first());
            }
        }
        if connection_failed {
            self.connected = false;
            Settlement::Reconnect
        } else if run_completed && self.max_turns > 0 && self.turns_served >= self.max_turns
            && self.queue.len() == 0 {
            self.connected = false;
            Settlement::Recycle
        } else {
            Settlement::Keep
        }
    }
}

/// The first run of a queue stays, cancelled or not.
proof fn lemma_first_stays<R>(queue: Seq<RunView<R>>, cancelled: Seq<bool>)
    ensures
        (kept(queue, cancelled).len() == 0) == (queue.len() == 0),
        queue.len() > 0 ==> kept(queue, cancelled)[0] == queue[0],
    decreases queue.len(),
{
    if queue.len() > 1 {
        lemma_first_stays(queue.drop_last(), cancelled);
    } else if queue.len() == 1 {
        assert(kept(queue.drop_last(), cancelled) =~= Seq::<RunView<R>>::empty());
    }
}

/// Anything that happens to a worker.
pub enum WorkerStep<R> {
    Connect,
    ConnectFailure,
    Announcement,
    Enqueue(CodexRequestView, R, u64),
    ThreadStart,
    ServerMessage(ServerMessageView, u64),
    Failure,
    Drop(Seq<bool>),
    Interrupt,
    Settlement(bool),
}

impl<R> WorkerView<R> {
    /// The worker after a step.
    pub open spec fn after(self, step: WorkerStep<R>) -> WorkerView<R> {
        match step {
            WorkerStep::Connect => self.after_connect(),
            WorkerStep::ConnectFailure => self.after_connect_failure(),
            WorkerStep::Announcement => self.after_announcement(),
            WorkerStep::Enqueue(request, handle, id) => self.after_enqueue(request, handle, id),
            WorkerStep::ThreadStart => self.after_thread_start(),
            WorkerStep::ServerMessage(message, id) => self.after_server_message(message, id),
            WorkerStep::Failure => self.after_failure(),
            WorkerStep::Drop(cancelled) => self.after_drop(cancelled),
            WorkerStep::Interrupt => self.after_interrupt(),
            WorkerStep::Settlement(connection_failed) => self.after_settlement(connection_failed),
        }
    }

    /// The worker after a sequence of steps.
    pub open spec fn after_all(self, steps: Seq<WorkerStep<R>>) -> WorkerView<R>
        decreases steps.len(),
    {
        if steps.len() == 0 {
            self
        } else {
            self.after_all(steps.drop_last()).after(steps.last())
        }
    }

    /// How often the worker tells in a sequence of steps that it is free.
    pub open spec fn announcements(self, steps: Seq<WorkerStep<R>>) -> nat
        decreases steps.len(),
    {
        if steps.len() == 0 {
            0
        } else {
            self.announcements(steps.drop_last()) + if steps.last() is Announcement
                && self.after_all(steps.drop_last()).announces() {
                1nat
            } else {
                0nat
            }
        }
    }
}

/// How many runs a sequence of steps brings.
pub open spec fn enqueued<R>(steps: Seq<WorkerStep<R>>) -> nat
    decreases steps.len(),
{
    if steps.len() == 0 {
        0
    } else {
        enqueued(steps.drop_last()) + if steps.last() is Enqueue {
            1nat
        } else {
            0nat
        }
    }
}

/// The run stands behind the first one and is not cancelled.
pub open spec fn waits<R>(queue: Seq<RunView<R>>, cancelled: Seq<bool>, run: RunView<R>) -> bool {
    exists|i: int| 1 <= i < queue.len() && !cancelled[i] && #[trigger] queue[i] == run
}

/// A run that stays is the first one, or one of the others that is not cancelled.
proof fn lemma_kept<R>(queue: Seq<RunView<R>>, cancelled: Seq<bool>)
    ensures
        kept(queue, cancelled).len() <= queue.len(),
        forall|j: int|
            1 <= j < kept(queue, cancelled).len() ==> waits(
                queue,
                cancelled,
                #[trigger] kept(queue, cancelled)[j],
            ),
    decreases queue.len(),
{
    if queue.len() > 0 {
        let front = queue.drop_last();
        let n = queue.len() - 1;
        lemma_kept(front, cancelled);
        lemma_first_stays(queue, cancelled);
        lemma_first_stays(front, cancelled);
        let all = kept(queue, cancelled);
        let some = kept(front, cancelled);
        assert forall|j: int| 1 <= j < all.len() implies waits(
            queue,
            cancelled,
            #[trigger] all[j],
        ) by {
            if j < some.len() {
                assert(all[j] == some[j]);
                let i = choose|i: int|
                    1 <= i < front.len() && !cancelled[i] && #[trigger] front[i] == some[j];
                assert(queue[i] == front[i]);
            } else {
                assert(all[j] == queue[n]);
            }
        }
    }
}

/// Whatever happens to a worker, it stays consistent.
pub proof fn every_step_keeps_workers_consistent<R>(worker: WorkerView<R>, step: WorkerStep<R>)
    requires
        worker.wf(),
    ensures
        worker.after(step).wf(),
{
    match step {
        WorkerStep::Drop(cancelled) => {
            lemma_kept(worker.queue, cancelled);
            lemma_first_stays(worker.queue, cancelled);
            let queue = kept(worker.queue, cancelled);
            assert forall|j: int| 1 <= j < queue.len() implies (#[trigger] queue[j]).is_fresh() by {
                assert(waits(worker.queue, cancelled, queue[j]));
            }
        },
        WorkerStep::Settlement(_) => {
            let queue = worker.remaining();
            assert forall|j: int| 1 <= j < queue.len() implies (#[trigger] queue[j]).is_fresh() by {
                if worker.has_finished() {
                    assert(queue[j] == worker.queue[j + 1]);
                }
            }
        },
        _ => {},
    }
}

/// From its start on, a worker is consistent: it is idle only without runs, and it works on one
/// run at a time.
pub proof fn workers_stay_consistent<R>(max_turns: u64, steps: Seq<WorkerStep<R>>)
    ensures
        WorkerView::<R>::initial(max_turns).after_all(steps).wf(),
    decreases steps.len(),
{
    if steps.len() > 0 {
        workers_stay_consistent(max_turns, steps.drop_last());
        every_step_keeps_workers_consistent(
            WorkerView::<R>::initial(max_turns).after_all(steps.drop_last()),
            steps.last(),
        );
    }
}

/// A worker never tells twice that it is free without a run in between.
pub proof fn workers_announce_once_per_run<R>(max_turns: u64, steps: Seq<WorkerStep<R>>)
    ensures
        ({
            let start = WorkerView::<R>::initial(max_turns);
            &&& start.announcements(steps) <= enqueued(steps) + 1
            &&& !start.after_all(steps).is_idle ==> start.announcements(steps) <= enqueued(steps)
        }),
    decreases steps.len(),
{
    if steps.len() > 0 {
        workers_announce_once_per_run(max_turns, steps.drop_last());
    }
}

/// A cancelled run that is still queued leaves before anything of it reaches Codex. The run that
/// is under way stays, cancelled or not.
pub proof fn cancelled_runs_never_reach_codex<R>(worker: WorkerView<R>, cancelled: Seq<bool>)
    requires
        worker.wf(),
    ensures
        forall|i: int|
            1 <= i < worker.queue.len() && cancelled[i] ==> (#[trigger] worker.queue[i]).is_fresh()
                && dropped(worker.queue, cancelled).contains(worker.queue[i].handle),
        forall|j: int|
            1 <= j < worker.after_drop(cancelled).queue.len() ==> waits(
                worker.queue,
                cancelled,
                #[trigger] worker.after_drop(cancelled).queue[j],
            ),
        worker.queue.len() > 0 ==> worker.after_drop(cancelled).queue.len() > 0
            && worker.after_drop(cancelled).queue[0] == worker.queue[0],
        worker.after_drop(cancelled).due_thread_start() == worker.due_thread_start(),
{
    lemma_kept(worker.queue, cancelled);
    lemma_first_stays(worker.queue, cancelled);
    lemma_dropped(worker.queue, cancelled);
}

proof fn lemma_dropped<R>(queue: Seq<RunView<R>>, cancelled: Seq<bool>)
    ensures
        forall|i: int|
            1 <= i < queue.len() && cancelled[i] ==> dropped(queue, cancelled).contains(
                (#[trigger] queue[i]).handle,
            ),
    decreases queue.len(),
{
    if queue.len() > 0 {
        let front = queue.drop_last();
        let n = queue.len() - 1;
        lemma_dropped(front, cancelled);
        let all = dropped(queue, cancelled);
        let some = dropped(front, cancelled);
        assert forall|i: int| 1 <= i < queue.len() && cancelled[i] implies all.contains(
            (#[trigger] queue[i]).handle,
        ) by {
            if i < n {
                assert(queue[i] == front[i]);
                assert(some.contains(front[i].handle));
                let k = choose|k: int| 0 <= k < some.len() && some[k] == front[i].handle;
                assert(all[k] == some[k]);
            } else {
                assert(all[all.len() - 1] == queue[n].handle);
            }
        }
    }
}

/// No run is lost and none is answered twice: every run either stays or is told that it timed
/// out.
pub proof fn cancelled_runs_are_answered_once<R>(queue: Seq<RunView<R>>, cancelled: Seq<bool>)
    ensures
        handles(queue).to_multiset() == handles(kept(queue, cancelled)).to_multiset().add(
            dropped(queue, cancelled).to_multiset(),
        ),
    decreases queue.len(),
{
    broadcast use vstd::seq_lib::group_to_multiset_ensures;

    if queue.len() == 0 {
        assert(handles(queue) =~= Seq::<R>::empty());
        assert(handles(kept(queue, cancelled)) =~= Seq::<R>::empty());
        assert(handles(queue).to_multiset() =~= handles(
            kept(queue, cancelled),
        ).to_multiset().add(dropped(queue, cancelled).to_multiset()));
    } else {
        let front = queue.drop_last();
        let last = queue.last();
        cancelled_runs_are_answered_once(front, cancelled);
        assert(handles(queue) =~= handles(front).push(last.handle));
        assert(handles(kept(front, cancelled).push(last)) =~= handles(kept(front, cancelled)).push(
            last.handle,
        ));
        assert(handles(queue).to_multiset() =~= handles(
            kept(queue, cancelled),
        ).to_multiset().add(dropped(queue, cancelled).to_multiset()));
    }
}

/// A child is recycled only after a turn has ended, when it has served all the turns that it may,
/// and while the worker has no run. With a limit of 0 it is never recycled.
pub proof fn only_idle_children_are_recycled<R>(worker: WorkerView<R>, connection_failed: bool)
    requires
        worker.settlement(connection_failed) is Recycle,
    ensures
        worker.has_finished(),
        worker.max_turns > 0,
        worker.served() >= worker.max_turns,
        worker.after_settlement(connection_failed).queue.len() == 0,
        !worker.after_settlement(connection_failed).connected,
        worker.after_settlement(connection_failed).after_connect().turns_served == 0,
{
}

/// A child that serves one run after the other is recycled at the end of the turn that fills its
/// limit, and at no turn before.
pub proof fn children_serve_their_turns<R>(worker: WorkerView<R>)
    requires
        worker.queue.len() == 1,
        worker.has_finished(),
        worker.turns_served < worker.max_turns,
    ensures
        worker.settlement(false) is Recycle <==> worker.turns_served + 1 == worker.max_turns,
        worker.settlement(false) is Keep <==> worker.turns_served + 1 < worker.max_turns,
        worker.settlement(false) is Keep ==> worker.after_settlement(false).turns_served
            == worker.turns_served + 1,
{
}

/// A worker without runs after it has served one more run, which has just ended. Where its child is
/// recycled, another one is connected.
pub open spec fn after_run<R>(worker: WorkerView<R>, run: RunView<R>) -> WorkerView<R> {
    let busy = serving(worker, run);
    if busy.settlement(false) is Recycle {
        busy.after_settlement(false).after_connect()
    } else {
        busy.after_settlement(false)
    }
}

/// A worker that has this run and no other.
pub open spec fn serving<R>(worker: WorkerView<R>, run: RunView<R>) -> WorkerView<R> {
    WorkerView { queue: seq![run], is_idle: false, ..worker }
}

/// A worker after it has served a sequence of runs, one after the other.
pub open spec fn after_runs<R>(worker: WorkerView<R>, runs: Seq<RunView<R>>) -> WorkerView<R>
    decreases runs.len(),
{
    if runs.len() == 0 {
        worker
    } else {
        after_run(after_runs(worker, runs.drop_last()), runs.last())
    }
}

/// How many children of a worker are recycled while it serves a sequence of runs.
pub open spec fn recycled<R>(worker: WorkerView<R>, runs: Seq<RunView<R>>) -> nat
    decreases runs.len(),
{
    if runs.len() == 0 {
        0
    } else {
        recycled(worker, runs.drop_last()) + if serving(
            after_runs(worker, runs.drop_last()),
            runs.last(),
        ).settlement(false) is Recycle {
            1nat
        } else {
            0nat
        }
    }
}

/// Over its whole life a worker that serves one run after the other gives up a child each time that
/// it has served as many turns as it may, and never before: every turn belongs to a child that was
/// recycled after its full number of turns, or to the current one, which has served fewer. With a
/// limit of 0 no child is ever recycled.
pub proof fn children_are_recycled_at_their_limit<R>(
    worker: WorkerView<R>,
    runs: Seq<RunView<R>>,
)
    requires
        worker.turns_served == 0,
        forall|i: int| 0 <= i < runs.len() ==> (#[trigger] runs[i]).is_finished(),
    ensures
        after_runs(worker, runs).max_turns == worker.max_turns,
        worker.max_turns > 0 ==> recycled(worker, runs) * worker.max_turns + after_runs(
            worker,
            runs,
        ).turns_served == runs.len(),
        worker.max_turns > 0 ==> after_runs(worker, runs).turns_served < worker.max_turns,
        worker.max_turns == 0 ==> recycled(worker, runs) == 0,
    decreases runs.len(),
{
    if runs.len() > 0 {
        let front = runs.drop_last();
        assert forall|i: int| 0 <= i < front.len() implies (#[trigger] front[i]).is_finished() by {
            assert(front[i] == runs[i]);
        }
        assert(runs[runs.len() - 1].is_finished());
        children_are_recycled_at_their_limit(worker, front);
        let before = after_runs(worker, front);
        let busy = serving(before, runs.last());
        assert(busy.has_finished());
        assert(busy.remaining().len() == 0);
        if worker.max_turns > 0 {
            children_serve_their_turns(busy);
            let count = recycled(worker, front) as int;
            let limit = worker.max_turns as int;
            assert((count + 1) * limit == count * limit + limit) by (nonlinear_arith);
        }
    } else {
        assert(0 * worker.max_turns == 0);
    }
}

/// Attempts to reconnect never follow each other faster than the first delay or slower than the
/// last, and no delay is shorter than the one before it.
pub proof fn reconnecting_backs_off<R>(worker: WorkerView<R>)
    requires
        worker.wf(),
    ensures
        worker.reconnect_delay_ms <= worker.after_connect_failure().reconnect_delay_ms,
        FIRST_DELAY_MS <= worker.after_connect_failure().reconnect_delay_ms <= LAST_DELAY_MS,
        worker.reconnect_delay_ms < LAST_DELAY_MS ==> worker.reconnect_delay_ms
            < worker.after_connect_failure().reconnect_delay_ms,
        worker.after_connect().reconnect_delay_ms == FIRST_DELAY_MS,
{
}

/// The id that comes after `n` others.
pub open spec fn nth_id(n: nat) -> u64
    decreases n,
{
    if n == 0 {
        2
    } else {
        following(nth_id((n - 1) as nat))
    }
}

/// Ids are distinct, and none is the mark of a run that has ended or the id of the opening
/// request, for as long as ids do not start over.
pub proof fn ids_are_distinct(n: nat, m: nat)
    requires
        n < m,
        m <= u64::MAX - 2,
    ensures
        nth_id(n) != nth_id(m),
        nth_id(n) != FINISHED,
        nth_id(n) != protocol::INITIALIZE_ID,
{
    lemma_nth_id(n);
    lemma_nth_id(m);
}

proof fn lemma_nth_id(n: nat)
    requires
        n <= u64::MAX - 2,
    ensures
        nth_id(n) == n + 2,
    decreases n,
{
    if n > 0 {
        lemma_nth_id((n - 1) as nat);
    }
}

/// A client is handed the text of the agent and the end of its turn, and nothing else that a child
/// says: no tool call, command, approval, diff or other notification, and nothing of another
/// thread.
pub proof fn only_agent_text_and_completion_are_forwarded<R>(
    run: RunView<R>,
    message: ServerMessageView,
    id: u64,
)
    ensures
        ({
            let events = after_message(run, message, id).effect.events;
            &&& events.len() > 0 ==> message.thread_id == run.thread_id && (message.method == Some(
                "item/agentMessage/delta"@,
            ) || message.method == Some("turn/completed"@))
            &&& forall|i: int|
                0 <= i < events.len() ==> match #[trigger] events[i] {
                    CodexEventView::TextDelta(delta) => message.method == Some(
                        "item/agentMessage/delta"@,
                    ) && message.delta == Some(delta),
                    _ => message.method == Some("turn/completed"@),
                }
        }),
{
}

/// A run is reported as completed only where Codex says that its turn was completed. A turn that
/// was interrupted or that failed is reported as failed.
pub proof fn completions_come_from_codex_alone<R>(
    run: RunView<R>,
    message: ServerMessageView,
    id: u64,
)
    ensures
        ({
            let step = after_message(run, message, id);
            &&& forall|i: int|
                0 <= i < step.effect.events.len() && #[trigger] step.effect.events[i] is Completed
                    ==> message.status == Some("completed"@) && step.outcome == Some(
                    auth::TurnOutcome::Succeeded,
                ) && step.run.is_finished()
            &&& message.status == Some("interrupted"@) || message.status == Some("failed"@)
                ==> !step.effect.events.contains(CodexEventView::Completed)
        }),
{
    reveal_strlit("completed");
    reveal_strlit("interrupted");
    reveal_strlit("failed");
    assert("completed"@.len() == 9 && "interrupted"@.len() == 11 && "failed"@.len() == 6);
}

/// A turn is asked for once its own thread has been given, and nothing else that a child says makes
/// the gateway ask for anything: every run has a thread to itself.
pub proof fn turns_follow_their_own_thread<R>(
    run: RunView<R>,
    message: ServerMessageView,
    id: u64,
)
    ensures
        after_message(run, message, id).effect.send matches Some(sent) ==> {
            &&& message.id == Some(run.thread_request_id)
            &&& message.new_thread_id is Some
            &&& sent == protocol::turn_start_tree(
                id,
                message.new_thread_id->Some_0,
                run.request.model,
                run.request.input,
            )
        },
{
}

/// How many runs a pool of workers has.
pub open spec fn runs_of<R>(workers: Seq<WorkerView<R>>) -> nat
    decreases workers.len(),
{
    if workers.len() == 0 {
        0
    } else {
        runs_of(workers.drop_last()) + workers.last().queue.len()
    }
}

/// The worker has no run, and has told so or is about to.
pub open spec fn is_free<R>(worker: WorkerView<R>) -> bool {
    worker.queue.len() == 0 && (worker.is_idle || worker.announces())
}

/// While a pool has fewer runs than workers, one of them is free: a run that has a permit never
/// waits for a worker without end.
pub proof fn some_worker_is_free<R>(workers: Seq<WorkerView<R>>)
    requires
        runs_of(workers) < workers.len(),
    ensures
        exists|i: int| 0 <= i < workers.len() && is_free(#[trigger] workers[i]),
    decreases workers.len(),
{
    let n = workers.len() - 1;
    if workers[n].queue.len() == 0 {
        assert(is_free(workers[n]));
    } else {
        let front = workers.drop_last();
        some_worker_is_free(front);
        let i = choose|i: int| 0 <= i < front.len() && is_free(#[trigger] front[i]);
        assert(is_free(workers[i]));
    }
}

/// A worker after a sequence of messages of its child, where `ids` are the next ids at each of them.
pub open spec fn after_server_messages<R>(
    worker: WorkerView<R>,
    messages: Seq<ServerMessageView>,
    ids: Seq<u64>,
) -> WorkerView<R>
    decreases messages.len(),
{
    if messages.len() == 0 {
        worker
    } else {
        after_server_messages(worker, messages.drop_last(), ids).after_server_message(
            messages.last(),
            ids[messages.len() - 1],
        )
    }
}

proof fn lemma_interrupts_are_remembered<R>(
    worker: WorkerView<R>,
    messages: Seq<ServerMessageView>,
    ids: Seq<u64>,
)
    requires
        worker.queue.len() > 0,
        worker.queue[0].interrupt_sent,
    ensures
        after_server_messages(worker, messages, ids).queue.len() > 0,
        after_server_messages(worker, messages, ids).queue[0].interrupt_sent,
    decreases messages.len(),
{
    if messages.len() > 0 {
        lemma_interrupts_are_remembered(worker, messages.drop_last(), ids);
    }
}

/// A run that is cancelled is asked to stop as soon as its turn is known, and is asked at most once,
/// however much the child says afterwards.
pub proof fn runs_are_interrupted_once<R>(
    worker: WorkerView<R>,
    messages: Seq<ServerMessageView>,
    ids: Seq<u64>,
    cancelled: Seq<bool>,
    id: u64,
)
    requires
        worker.queue.len() > 0,
    ensures
        cancelled[0] && !worker.queue[0].interrupt_sent && worker.queue[0].thread_id is Some
            && worker.queue[0].turn_id is Some ==> worker.due_interrupt(cancelled, id) is Some,
        after_server_messages(worker.after_interrupt(), messages, ids).due_interrupt(
            cancelled,
            id,
        ) is None,
{
    lemma_interrupts_are_remembered(worker.after_interrupt(), messages, ids);
}

/// A run after a sequence of messages, where `id` is the next id.
pub open spec fn run_after<R>(
    run: RunView<R>,
    messages: Seq<ServerMessageView>,
    id: u64,
) -> RunView<R>
    decreases messages.len(),
{
    if messages.len() == 0 {
        run
    } else {
        after_message(run_after(run, messages.drop_last(), id), messages.last(), id).run
    }
}

/// The events that a sequence of messages brings to the client of a run.
pub open spec fn events_after<R>(
    run: RunView<R>,
    messages: Seq<ServerMessageView>,
    id: u64,
) -> Seq<CodexEventView>
    decreases messages.len(),
{
    if messages.len() == 0 {
        Seq::empty()
    } else {
        events_after(run, messages.drop_last(), id) + after_message(
            run_after(run, messages.drop_last(), id),
            messages.last(),
            id,
        ).effect.events
    }
}

proof fn lemma_messages_split<R>(
    run: RunView<R>,
    a: Seq<ServerMessageView>,
    b: Seq<ServerMessageView>,
    id: u64,
)
    ensures
        run_after(run, a + b, id) == run_after(run_after(run, a, id), b, id),
        events_after(run, a + b, id) == events_after(run, a, id) + events_after(
            run_after(run, a, id),
            b,
            id,
        ),
    decreases b.len(),
{
    if b.len() == 0 {
        assert(a + b =~= a);
        assert(events_after(run, a, id) + events_after(run_after(run, a, id), b, id)
            =~= events_after(run, a, id));
    } else {
        assert((a + b).drop_last() =~= a + b.drop_last());
        lemma_messages_split(run, a, b.drop_last(), id);
        assert(events_after(run, a + b, id) =~= events_after(run, a, id) + events_after(
            run_after(run, a, id),
            b,
            id,
        ));
    }
}

proof fn lemma_one_message<R>(run: RunView<R>, message: ServerMessageView, id: u64)
    ensures
        run_after(run, seq![message], id) == after_message(run, message, id).run,
        events_after(run, seq![message], id) == after_message(run, message, id).effect.events,
{
    let one = seq![message];
    assert(one.drop_last() =~= Seq::<ServerMessageView>::empty());
    assert(run_after(run, one.drop_last(), id) == run);
    assert(events_after(run, one.drop_last(), id) =~= Seq::<CodexEventView>::empty());
    assert(events_after(run, one, id) =~= after_message(run, message, id).effect.events);
}

/// Anything that a child may say before a run has a thread: it does not answer the request for it,
/// and neither text of the agent nor the end of a turn comes without the thread that it is about.
pub open spec fn is_foreign<R>(run: RunView<R>, message: ServerMessageView) -> bool {
    &&& message.id != Some(run.thread_request_id)
    &&& message.thread_id is Some || (message.method != Some("item/agentMessage/delta"@)
        && message.method != Some("turn/completed"@))
}

/// Anything that a child may say while a turn goes on, of this thread or of another one: it answers
/// neither request of the run, and it is not the end of the turn.
pub open spec fn is_chatter<R>(
    run: RunView<R>,
    id: u64,
    thread_id: Seq<char>,
    message: ServerMessageView,
) -> bool {
    &&& message.id != Some(run.thread_request_id)
    &&& message.id != Some(id)
    &&& !(message.method == Some("turn/completed"@) && message.thread_id == Some(thread_id))
}

/// The pieces of text that the agent says in a thread, in order.
pub open spec fn agent_text(thread_id: Seq<char>, messages: Seq<ServerMessageView>) -> Seq<
    CodexEventView,
>
    decreases messages.len(),
{
    if messages.len() == 0 {
        Seq::empty()
    } else {
        let earlier = agent_text(thread_id, messages.drop_last());
        let last = messages.last();
        match last.delta {
            Some(delta) => if last.method == Some("item/agentMessage/delta"@) && last.thread_id
                == Some(thread_id) {
                earlier.push(CodexEventView::TextDelta(delta))
            } else {
                earlier
            },
            None => earlier,
        }
    }
}

proof fn lemma_methods_differ()
    ensures
        "item/agentMessage/delta"@ != "turn/completed"@,
{
    reveal_strlit("item/agentMessage/delta");
    reveal_strlit("turn/completed");
    assert("item/agentMessage/delta"@[0] == 'i' && "turn/completed"@[0] == 't');
}

proof fn lemma_foreign<R>(run: RunView<R>, messages: Seq<ServerMessageView>, id: u64)
    requires
        run.thread_id is None,
        run.turn_request_id is None,
        forall|i: int| 0 <= i < messages.len() ==> is_foreign(run, #[trigger] messages[i]),
    ensures
        run_after(run, messages, id) == run,
        events_after(run, messages, id) == Seq::<CodexEventView>::empty(),
    decreases messages.len(),
{
    if messages.len() > 0 {
        let front = messages.drop_last();
        assert forall|i: int| 0 <= i < front.len() implies is_foreign(run, #[trigger] front[i]) by {
            assert(front[i] == messages[i]);
        }
        lemma_foreign(run, front, id);
        assert(is_foreign(run, messages[messages.len() - 1]));
        assert(events_after(run, messages, id) =~= Seq::<CodexEventView>::empty());
    }
}

proof fn lemma_chatter<R>(
    run: RunView<R>,
    messages: Seq<ServerMessageView>,
    id: u64,
    thread_id: Seq<char>,
)
    requires
        run.thread_id == Some(thread_id),
        run.turn_request_id == Some(id),
        forall|i: int|
            0 <= i < messages.len() ==> is_chatter(run, id, thread_id, #[trigger] messages[i]),
    ensures
        run_after(run, messages, id) == run,
        events_after(run, messages, id) == agent_text(thread_id, messages),
    decreases messages.len(),
{
    if messages.len() > 0 {
        lemma_methods_differ();
        let front = messages.drop_last();
        assert forall|i: int| 0 <= i < front.len() implies is_chatter(
            run,
            id,
            thread_id,
            #[trigger] front[i],
        ) by {
            assert(front[i] == messages[i]);
        }
        lemma_chatter(run, front, id, thread_id);
        assert(is_chatter(run, id, thread_id, messages[messages.len() - 1]));
        assert(events_after(run, messages, id) =~= agent_text(thread_id, messages));
    }
}

/// A turn that goes well is forwarded whole and in order, whatever else the child says meanwhile,
/// of tools, commands, approvals or other threads: every piece of text of the run's own thread as it
/// comes, then the token counts where there are any, then that the run is completed. The run has
/// then ended.
///
/// `started` and `answered` are the answers to the requests for the thread and for the turn, and
/// `ended` is the end of the turn. What the child says before and between them is arbitrary.
pub proof fn turns_are_forwarded_in_order<R>(
    run: RunView<R>,
    id: u64,
    before: Seq<ServerMessageView>,
    started: ServerMessageView,
    between: Seq<ServerMessageView>,
    answered: ServerMessageView,
    after: Seq<ServerMessageView>,
    ended: ServerMessageView,
)
    requires
        run.thread_id is None,
        run.turn_request_id is None,
        id != run.thread_request_id,
        started.id == Some(run.thread_request_id),
        started.new_thread_id is Some,
        answered.id == Some(id),
        !answered.has_error,
        answered.new_turn_id is Some,
        ended.id != Some(run.thread_request_id),
        ended.id != Some(id),
        ended.method == Some("turn/completed"@),
        ended.thread_id == started.new_thread_id,
        ended.status == Some("completed"@),
        forall|i: int| 0 <= i < before.len() ==> is_foreign(run, #[trigger] before[i]),
        forall|i: int|
            0 <= i < between.len() ==> is_chatter(
                run,
                id,
                started.new_thread_id->Some_0,
                #[trigger] between[i],
            ),
        forall|i: int|
            0 <= i < after.len() ==> is_chatter(
                run,
                id,
                started.new_thread_id->Some_0,
                #[trigger] after[i],
            ),
    ensures
        ({
            let thread_id = started.new_thread_id->Some_0;
            let messages = before + seq![started] + between + seq![answered] + after + seq![ended];
            &&& events_after(run, messages, id) == agent_text(thread_id, between) + agent_text(
                thread_id,
                after,
            ) + usage_events(ended.usage) + seq![CodexEventView::Completed]
            &&& run_after(run, messages, id).is_finished()
        }),
{
    lemma_methods_differ();
    let thread_id = started.new_thread_id->Some_0;
    let open = RunView { thread_id: Some(thread_id), turn_request_id: Some(id), ..run };
    let known = RunView { turn_id: answered.new_turn_id, ..open };
    let none = Seq::<CodexEventView>::empty();
    let a = before + seq![started];
    let b = a + between;
    let c = b + seq![answered];
    let d = c + after;
    lemma_foreign(run, before, id);
    lemma_messages_split(run, before, seq![started], id);
    lemma_one_message(run, started, id);
    assert(run_after(run, a, id) == open);
    assert(events_after(run, a, id) =~= none);
    lemma_messages_split(run, a, between, id);
    lemma_chatter(open, between, id, thread_id);
    assert(events_after(run, b, id) =~= agent_text(thread_id, between));
    lemma_messages_split(run, b, seq![answered], id);
    lemma_one_message(open, answered, id);
    assert(run_after(run, c, id) == known);
    assert(events_after(run, c, id) =~= agent_text(thread_id, between));
    lemma_messages_split(run, c, after, id);
    lemma_chatter(known, after, id, thread_id);
    assert(run_after(run, d, id) == known);
    lemma_messages_split(run, d, seq![ended], id);
    lemma_one_message(known, ended, id);
    assert(usage_events(ended.usage).push(CodexEventView::Completed) =~= usage_events(ended.usage)
        + seq![CodexEventView::Completed]);
    assert(events_after(run, d + seq![ended], id) =~= agent_text(thread_id, between) + agent_text(
        thread_id,
        after,
    ) + usage_events(ended.usage) + seq![CodexEventView::Completed]);
}

} // verus!
