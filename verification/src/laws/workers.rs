//! How runs go through the workers, and what is said to Codex and heard from it.
use crate::auth::{AuthTrackerView, TurnOutcome};
use crate::completion::ArrivalView;
use crate::error::GatewayErrorView;
use crate::exec_backend;
use crate::exec_backend::{ExecExit, ExecInput, ExecRun};
use crate::json;
use crate::json::JsonTree;
use crate::laws::conversations;
use crate::laws::credentials;
use crate::laws::texts;
use crate::laws::words;
use crate::protocol;
use crate::protocol::{CodexEventView, CodexRequestView, ServerMessageView, TokenUsage};
use crate::worker;
use crate::worker::{RunView, WorkerView};
use vstd::prelude::*;

verus! {

/// The document is a request with this method, this id and parameters of these names.
pub open spec fn is_request(
    tree: JsonTree,
    method: Seq<char>,
    id: u64,
    names: Set<Seq<char>>,
) -> bool {
    let params = json::member(Some(tree), "params"@);
    &&& conversations::has_members(tree, set!["method"@, "id"@, "params"@])
    &&& json::member(Some(tree), "method"@) == Some(JsonTree::Text(method))
    &&& json::member(Some(tree), "id"@) == Some(JsonTree::Natural(id))
    &&& params is Some && conversations::has_members(params->Some_0, names)
}

/// The value under a name in the parameters of a request.
pub open spec fn param(tree: JsonTree, name: Seq<char>) -> Option<JsonTree> {
    json::member(json::member(Some(tree), "params"@), name)
}

/// The handshake names this program under the first id, and ends with a notice that has none.
pub proof fn handshakes_name_this_program()
    ensures
        ({
            let tree = protocol::initialize_tree();
            let client = param(tree, "clientInfo"@);
            &&& is_request(tree, "initialize"@, 1, set!["clientInfo"@])
            &&& conversations::has_members(client->Some_0, set!["name"@, "title"@, "version"@])
            &&& json::member(client, "name"@) == Some(JsonTree::Text("codex-openai-gateway"@))
            &&& json::member(client, "title"@) == Some(JsonTree::Text("Codex OpenAI Gateway"@))
            &&& json::member(client, "version"@) == Some(JsonTree::Text("0.1.0"@))
        }),
        ({
            let tree = protocol::initialized_tree();
            &&& conversations::has_members(tree, set!["method"@, "params"@])
            &&& json::member(Some(tree), "method"@) == Some(JsonTree::Text("initialized"@))
            &&& json::member(Some(tree), "params"@) is Some && conversations::has_members(
                json::member(Some(tree), "params"@)->Some_0,
                Set::<Seq<char>>::empty(),
            )
        }),
{
    words::lemma_words_differ();
}

/// A handshake succeeds exactly where the answer is a document with a result and without an error.
pub proof fn handshakes_need_a_result_without_an_error(line: Seq<char>)
    ensures
        protocol::handshake(line) is Ok <==> (json::json_parse(line) matches Some(answer)
            && json::member(Some(answer), "result"@) is Some && json::member(
            Some(answer),
            "error"@,
        ) is None),
        json::json_parse(line) is None ==> protocol::handshake(line) == Err::<
            (),
            GatewayErrorView,
        >(GatewayErrorView::Backend("invalid initialization response"@)),
        json::json_parse(line) is Some && protocol::handshake(line) is Err ==> protocol::handshake(
            line,
        ) == Err::<(), GatewayErrorView>(
            GatewayErrorView::Backend("app-server initialization failed"@),
        ),
{
}

/// An answer is accepted exactly where it has a result and no error.
pub proof fn answers_need_a_result_without_an_error(answer: JsonTree)
    ensures
        protocol::accepts(answer) <==> json::member(Some(answer), "result"@) is Some && json::member(
            Some(answer),
            "error"@,
        ) is None,
{
}

/// A thread is asked for under the id and with the model of its run. It leaves nothing behind and
/// only reads.
pub proof fn threads_are_asked_for_by_model(id: u64, model: Seq<char>)
    ensures
        ({
            let tree = protocol::thread_start_tree(id, model);
            &&& is_request(tree, "thread/start"@, id, set!["model"@, "ephemeral"@, "sandbox"@])
            &&& param(tree, "model"@) == Some(JsonTree::Text(model))
            &&& param(tree, "ephemeral"@) == Some(JsonTree::Bool(true))
            &&& param(tree, "sandbox"@) == Some(JsonTree::Text("read-only"@))
        }),
{
    words::lemma_words_differ();
}

/// A turn is asked for on its thread, with the model of its run, and only reads, without the
/// network.
pub proof fn turns_are_asked_for_on_their_thread(
    id: u64,
    thread_id: Seq<char>,
    request: CodexRequestView,
)
    ensures
        ({
            let tree = protocol::turn_start_tree(id, thread_id, request.model, request.input);
            let policy = param(tree, "sandboxPolicy"@);
            &&& is_request(
                tree,
                "turn/start"@,
                id,
                set!["threadId"@, "model"@, "sandboxPolicy"@, "input"@],
            )
            &&& param(tree, "threadId"@) == Some(JsonTree::Text(thread_id))
            &&& param(tree, "model"@) == Some(JsonTree::Text(request.model))
            &&& conversations::has_members(policy->Some_0, set!["type"@, "networkAccess"@])
            &&& json::member(policy, "type"@) == Some(JsonTree::Text("readOnly"@))
            &&& json::member(policy, "networkAccess"@) == Some(JsonTree::Bool(false))
            &&& param(tree, "input"@) matches Some(JsonTree::Array(items)) && items.len()
                == request.input.len() && forall|i: int|
                0 <= i < items.len() ==> #[trigger] items[i] == request.input[i].tree()
        }),
{
    words::lemma_words_differ();
}

/// A turn is stopped by naming its thread and itself.
pub proof fn turns_are_stopped_by_name(id: u64, thread_id: Seq<char>, turn_id: Seq<char>)
    ensures
        ({
            let tree = protocol::interrupt_tree(id, thread_id, turn_id);
            &&& is_request(tree, "turn/interrupt"@, id, set!["threadId"@, "turnId"@])
            &&& param(tree, "threadId"@) == Some(JsonTree::Text(thread_id))
            &&& param(tree, "turnId"@) == Some(JsonTree::Text(turn_id))
        }),
{
    words::lemma_words_differ();
}

/// The number under a name, where there is a natural one.
pub open spec fn number_under(tree: Option<JsonTree>, key: Seq<char>) -> Option<u64> {
    match json::member(tree, key) {
        Some(JsonTree::Natural(n)) => Some(n),
        _ => None,
    }
}

/// Everything that a message of Codex says is read from its place in the message.
pub proof fn messages_are_read_from_their_places(line: JsonTree)
    ensures
        ({
            let message = protocol::message_of(line);
            let whole = Some(line);
            let result = json::member(whole, "result"@);
            let params = json::member(whole, "params"@);
            let turn = json::member(params, "turn"@);
            let usage = json::member(params, "usage"@);
            &&& message.id == number_under(whole, "id"@)
            &&& message.has_error <==> json::member(whole, "error"@) is Some
            &&& message.new_thread_id == credentials::text_under(
                json::member(result, "thread"@),
                "id"@,
            )
            &&& message.new_turn_id == credentials::text_under(json::member(result, "turn"@), "id"@)
            &&& message.method == credentials::text_under(whole, "method"@)
            &&& message.thread_id == credentials::text_under(params, "threadId"@)
            &&& message.delta == credentials::text_under(params, "delta"@)
            &&& message.status == credentials::text_under(turn, "status"@)
            &&& message.error_message == credentials::text_under(
                json::member(turn, "error"@),
                "message"@,
            )
            &&& usage is None ==> message.usage is None
            &&& usage is Some ==> (message.usage matches Some(counts) && counts.input_tokens
                == number_under(usage, "inputTokens"@) && counts.output_tokens == number_under(
                usage,
                "outputTokens"@,
            ))
        }),
{
}

/// The message answers neither of the two requests of the run.
pub open spec fn is_no_answer<R>(run: RunView<R>, message: ServerMessageView) -> bool {
    message.id != Some(run.thread_request_id) && !(run.turn_request_id is Some && message.id
        == run.turn_request_id)
}

/// A piece of text that Codex says on the thread of the run goes to its client as it is. It changes
/// nothing else.
pub proof fn agent_texts_go_to_the_client<R>(
    run: RunView<R>,
    line: JsonTree,
    delta: Seq<char>,
    id: u64,
)
    requires
        is_no_answer(run, protocol::message_of(line)),
        json::member(Some(line), "method"@) == Some(JsonTree::Text("item/agentMessage/delta"@)),
        run.thread_id is Some,
        param(line, "threadId"@) == Some(JsonTree::Text(run.thread_id->Some_0)),
        param(line, "delta"@) == Some(JsonTree::Text(delta)),
    ensures
        ({
            let step = worker::after_message(run, protocol::message_of(line), id);
            &&& step.effect.events == seq![CodexEventView::TextDelta(delta)]
            &&& step.effect.send is None
            &&& step.effect.failure is None
            &&& step.run == run
            &&& step.outcome is None
            &&& !step.takes_id
        }),
{
    words::lemma_words_differ();
}

/// The answer to the request for a thread is followed by the request for a turn on that thread,
/// under the next id. An answer that names no thread breaks the connection.
pub proof fn threads_are_followed_by_turns<R>(run: RunView<R>, message: ServerMessageView, id: u64)
    requires
        message.id == Some(run.thread_request_id),
    ensures
        ({
            let step = worker::after_message(run, message, id);
            &&& step.effect.events.len() == 0
            &&& step.outcome is None
            &&& message.new_thread_id matches Some(thread_id) ==> {
                &&& step.run == (RunView {
                    thread_id: Some(thread_id),
                    turn_request_id: Some(id),
                    ..run
                })
                &&& step.effect.send == Some(
                    protocol::turn_start_tree(id, thread_id, run.request.model, run.request.input),
                )
                &&& step.effect.failure is None
                &&& step.takes_id
            }
            &&& message.new_thread_id is None ==> {
                &&& step.run == run
                &&& step.effect.send is None
                &&& step.effect.failure == Some(
                    GatewayErrorView::Backend("thread/start returned no thread id"@),
                )
                &&& !step.takes_id
            }
        }),
{
}

/// The answer to the request for a turn names the turn. One that reports an error or names none
/// breaks the connection.
pub proof fn turns_are_named_by_their_answer<R>(
    run: RunView<R>,
    message: ServerMessageView,
    id: u64,
)
    requires
        run.turn_request_id is Some,
        message.id == run.turn_request_id,
        message.id != Some(run.thread_request_id),
    ensures
        ({
            let step = worker::after_message(run, message, id);
            &&& step.effect.events.len() == 0
            &&& step.effect.send is None
            &&& step.outcome is None
            &&& !step.takes_id
            &&& message.has_error ==> step.run == run && step.effect.failure == Some(
                GatewayErrorView::Backend("app-server turn failed"@),
            )
            &&& !message.has_error && message.new_turn_id is None ==> step.run == run
                && step.effect.failure == Some(
                GatewayErrorView::Backend("turn/start returned no turn id"@),
            )
            &&& !message.has_error && message.new_turn_id is Some ==> step.run == (RunView {
                turn_id: message.new_turn_id,
                ..run
            }) && step.effect.failure is None
        }),
{
}

/// The counts of tokens as an event, where there are any.
pub open spec fn counts(usage: Option<TokenUsage>) -> Seq<CodexEventView> {
    match usage {
        Some(usage) => seq![
            CodexEventView::Usage {
                input_tokens: usage.input_tokens,
                output_tokens: usage.output_tokens,
            },
        ],
        None => Seq::empty(),
    }
}

/// The end of the turn goes to the client, after the counts of tokens: a completed turn as such, an
/// interrupted one as a failure, a failed one with the reason that Codex gives. The run is then
/// finished. A completed or a failed turn tells of the credentials too.
pub proof fn ends_of_turns_go_to_the_client<R>(
    run: RunView<R>,
    message: ServerMessageView,
    id: u64,
)
    requires
        is_no_answer(run, message),
        message.method == Some("turn/completed"@),
        message.thread_id == run.thread_id,
    ensures
        ({
            let step = worker::after_message(run, message, id);
            let reason = match message.error_message {
                Some(reason) => reason,
                None => "Codex turn failed"@,
            };
            let over = RunView { turn_request_id: Some(0u64), ..run };
            &&& step.effect.send is None
            &&& !step.takes_id
            &&& message.status == Some("completed"@) ==> {
                &&& step.run == over
                &&& step.effect.events == counts(message.usage) + seq![CodexEventView::Completed]
                &&& step.effect.failure is None
                &&& step.outcome == Some(TurnOutcome::Succeeded)
            }
            &&& message.status == Some("interrupted"@) ==> {
                &&& step.run == over
                &&& step.effect.events == counts(message.usage) + seq![
                    CodexEventView::Failed("Codex turn was interrupted"@),
                ]
                &&& step.effect.failure is None
                &&& step.outcome is None
            }
            &&& message.status == Some("failed"@) ==> {
                &&& step.run == over
                &&& step.effect.events == counts(message.usage) + seq![
                    CodexEventView::Failed(reason),
                ]
                &&& step.effect.failure is None
                &&& step.outcome == Some(TurnOutcome::Failed(reason))
            }
            &&& message.status != Some("completed"@) && message.status != Some("interrupted"@)
                && message.status != Some("failed"@) ==> {
                &&& step.run == run
                &&& step.effect.events == counts(message.usage)
                &&& step.effect.failure == Some(
                    GatewayErrorView::Backend("turn/completed had an invalid status"@),
                )
                &&& step.outcome is None
            }
        }),
{
    words::lemma_words_differ();
    let step = worker::after_message(run, message, id);
    match message.usage {
        Some(usage) => {
            assert(worker::usage_events(message.usage) =~= counts(message.usage));
        },
        None => {
            assert(worker::usage_events(message.usage) =~= counts(message.usage));
        },
    }
    if message.status == Some("completed"@) {
        assert(step.effect.events =~= counts(message.usage) + seq![CodexEventView::Completed]);
    }
}

/// Whatever else Codex says, and whatever it says of another thread, changes nothing and goes
/// nowhere.
pub proof fn other_messages_are_ignored<R>(run: RunView<R>, message: ServerMessageView, id: u64)
    requires
        is_no_answer(run, message),
        message.thread_id != run.thread_id || message.method is None || (message.method != Some(
            "turn/completed"@,
        ) && message.method != Some("item/agentMessage/delta"@)) || (message.method == Some(
            "item/agentMessage/delta"@,
        ) && message.delta is None),
    ensures
        ({
            let step = worker::after_message(run, message, id);
            &&& step.run == run
            &&& step.effect.events.len() == 0
            &&& step.effect.send is None
            &&& step.effect.failure is None
            &&& step.outcome is None
            &&& !step.takes_id
        }),
{
    words::lemma_words_differ();
}

/// What a turn tells of the credentials is remembered with its time, and nothing is remembered where
/// it tells nothing.
pub proof fn outcomes_are_remembered(tracker: AuthTrackerView, outcome: TurnOutcome, now: u64)
    ensures
        worker::tracker_after(tracker, Some(outcome), now) == tracker.after(outcome, now),
        worker::tracker_after(tracker, None, now) == tracker,
{
}

/// Ids go up by one and start again from zero after the last.
pub proof fn ids_go_up_by_one(id: u64)
    ensures
        id < u64::MAX ==> worker::following(id) == id + 1,
        id == u64::MAX ==> worker::following(id) == 0,
{
}

/// A worker starts with nothing to do, without a connection and with half a second to wait.
pub proof fn workers_start_empty<R>(max_turns: u64)
    ensures
        WorkerView::<R>::initial(max_turns) == (WorkerView::<R> {
            queue: Seq::empty(),
            connected: false,
            reconnect_delay_ms: 500,
            is_idle: false,
            max_turns,
            turns_served: 0,
        }),
{
}

/// A run joins the end of the queue, with its request and its handle as they are and under the next
/// id. The worker is idle no longer.
pub proof fn runs_join_the_end_of_the_queue<R>(
    worker: WorkerView<R>,
    request: CodexRequestView,
    handle: R,
    id: u64,
)
    ensures
        ({
            let next = worker.after_enqueue(request, handle, id);
            let run = next.queue.last();
            &&& next.queue.len() == worker.queue.len() + 1
            &&& next.queue.drop_last() == worker.queue
            &&& run.request == request
            &&& run.handle == handle
            &&& run.thread_request_id == id
            &&& !run.thread_sent
            &&& run.turn_request_id is None
            &&& run.thread_id is None
            &&& run.turn_id is None
            &&& !run.interrupt_sent
            &&& !next.is_idle
            &&& next == (WorkerView { queue: next.queue, is_idle: false, ..worker })
        }),
{
    assert(worker.after_enqueue(request, handle, id).queue.drop_last() =~= worker.queue);
}

/// A new connection serves turns from the first on, and brings the delay back to half a second. An
/// attempt that fails doubles the delay, up to half a minute. Neither touches the runs.
pub proof fn connections_change_nothing_but_themselves<R>(worker: WorkerView<R>)
    ensures
        worker.after_connect() == (WorkerView {
            connected: true,
            reconnect_delay_ms: 500,
            turns_served: 0,
            ..worker
        }),
        worker.reconnect_delay_ms <= 15_000 ==> worker.after_connect_failure() == (WorkerView {
            connected: false,
            reconnect_delay_ms: (worker.reconnect_delay_ms * 2) as u64,
            ..worker
        }),
        worker.reconnect_delay_ms > 15_000 ==> worker.after_connect_failure() == (WorkerView {
            connected: false,
            reconnect_delay_ms: 30_000,
            ..worker
        }),
{
}

/// A worker announces that it is free where it has no run and has not said so. It has then said so,
/// and nothing else is different.
pub proof fn announcements_change_nothing_else<R>(worker: WorkerView<R>)
    ensures
        worker.announces() <==> worker.queue.len() == 0 && !worker.is_idle,
        worker.queue.len() == 0 ==> worker.after_announcement() == (WorkerView {
            is_idle: true,
            ..worker
        }),
        worker.queue.len() > 0 ==> worker.after_announcement() == worker,
{
}

/// A thread is asked for where there is a run and that has not been done for the first one: under its
/// id and with its model. This is then noted on that run alone.
pub proof fn the_first_run_gets_a_thread<R>(worker: WorkerView<R>)
    ensures
        worker.queue.len() == 0 ==> worker.due_thread_start() is None
            && worker.after_thread_start() == worker,
        worker.queue.len() > 0 ==> {
            let first = worker.queue[0];
            let next = worker.after_thread_start();
            &&& first.thread_sent ==> worker.due_thread_start() is None
            &&& !first.thread_sent ==> (worker.due_thread_start() matches Some(tree) && is_request(
                tree,
                "thread/start"@,
                first.thread_request_id,
                set!["model"@, "ephemeral"@, "sandbox"@],
            ) && param(tree, "model"@) == Some(JsonTree::Text(first.request.model)))
            &&& next == (WorkerView { queue: next.queue, ..worker })
            &&& next.queue.len() == worker.queue.len()
            &&& next.queue[0] == (RunView { thread_sent: true, ..first })
            &&& forall|i: int|
                1 <= i < worker.queue.len() ==> #[trigger] next.queue[i] == worker.queue[i]
        },
{
    words::lemma_words_differ();
}

/// What Codex says is heard by the first run alone. The others, and the rest of the worker, stay as
/// they are.
pub proof fn messages_reach_the_first_run_alone<R>(
    worker: WorkerView<R>,
    message: ServerMessageView,
    id: u64,
)
    ensures
        worker.queue.len() == 0 ==> worker.after_server_message(message, id) == worker
            && worker.step_on(message, id) is None,
        worker.queue.len() > 0 ==> {
            let next = worker.after_server_message(message, id);
            let step = worker::after_message(worker.queue[0], message, id);
            &&& worker.step_on(message, id) == Some(step)
            &&& next == (WorkerView { queue: next.queue, ..worker })
            &&& next.queue.len() == worker.queue.len()
            &&& next.queue[0] == step.run
            &&& forall|i: int|
                1 <= i < worker.queue.len() ==> #[trigger] next.queue[i] == worker.queue[i]
        },
{
}

/// Where the connection fails, every run leaves the queue, and each of their clients is told, in
/// order, why.
pub proof fn failures_are_told_to_every_client<R>(
    worker: WorkerView<R>,
    failure: GatewayErrorView,
    i: int,
)
    ensures
        worker.after_failure() == (WorkerView { queue: Seq::empty(), ..worker }),
        worker::notices(worker::handles(worker.queue), failure).len() == worker.queue.len(),
        0 <= i < worker.queue.len() ==> worker::notices(worker::handles(worker.queue), failure)[i]
            == (worker.queue[i].handle, failure),
{
}

/// Of the runs, taken one by one, the first stays, and so does each later one that is not cancelled.
/// The client of any other is told. The order stays as it is.
pub proof fn cancelled_runs_leave_the_queue<R>(
    queue: Seq<RunView<R>>,
    run: RunView<R>,
    cancelled: Seq<bool>,
)
    ensures
        ({
            let stays = queue.len() == 0 || !cancelled[queue.len() as int];
            &&& stays ==> worker::kept(queue.push(run), cancelled) == worker::kept(queue, cancelled)
                + seq![run] && worker::dropped(queue.push(run), cancelled) == worker::dropped(
                queue,
                cancelled,
            )
            &&& !stays ==> worker::kept(queue.push(run), cancelled) == worker::kept(
                queue,
                cancelled,
            ) && worker::dropped(queue.push(run), cancelled) == worker::dropped(queue, cancelled)
                + seq![run.handle]
        }),
        worker::kept(Seq::<RunView<R>>::empty(), cancelled).len() == 0,
        worker::dropped(Seq::<RunView<R>>::empty(), cancelled).len() == 0,
{
    assert(queue.push(run).drop_last() =~= queue);
}

/// Dropping runs touches nothing but the queue.
pub proof fn drops_touch_the_queue_alone<R>(worker: WorkerView<R>, cancelled: Seq<bool>)
    ensures
        worker.after_drop(cancelled) == (WorkerView {
            queue: worker::kept(worker.queue, cancelled),
            ..worker
        }),
{
}

/// The first run is stopped where it is cancelled, its thread and its turn are known and it has not
/// been stopped yet: by the names of that thread and that turn. This is then noted on that run alone.
pub proof fn the_first_run_is_stopped<R>(worker: WorkerView<R>, cancelled: Seq<bool>, id: u64)
    ensures
        worker.queue.len() == 0 ==> worker.due_interrupt(cancelled, id) is None
            && worker.after_interrupt() == worker,
        worker.queue.len() > 0 ==> {
            let first = worker.queue[0];
            let next = worker.after_interrupt();
            let due = cancelled[0] && !first.interrupt_sent && first.thread_id is Some
                && first.turn_id is Some;
            &&& !due ==> worker.due_interrupt(cancelled, id) is None
            &&& due ==> (worker.due_interrupt(cancelled, id) matches Some(tree) && is_request(
                tree,
                "turn/interrupt"@,
                id,
                set!["threadId"@, "turnId"@],
            ) && param(tree, "threadId"@) == Some(JsonTree::Text(first.thread_id->Some_0)) && param(
                tree,
                "turnId"@,
            ) == Some(JsonTree::Text(first.turn_id->Some_0)))
            &&& next == (WorkerView { queue: next.queue, ..worker })
            &&& next.queue.len() == worker.queue.len()
            &&& next.queue[0] == (RunView { interrupt_sent: true, ..first })
            &&& forall|i: int|
                1 <= i < worker.queue.len() ==> #[trigger] next.queue[i] == worker.queue[i]
        },
{
    words::lemma_words_differ();
}

/// A finished run leaves the queue and counts as served. The connection is given up where it failed,
/// or where the child has served as many turns as it may and nothing waits; else it is kept.
pub proof fn finished_runs_leave_the_queue<R>(worker: WorkerView<R>, connection_failed: bool)
    requires
        worker.turns_served < u64::MAX,
    ensures
        ({
            let over = worker.queue.len() > 0 && worker.queue[0].turn_request_id == Some(0u64);
            let spent = over && worker.max_turns > 0 && worker.turns_served + 1 >= worker.max_turns
                && worker.queue.len() == 1;
            let settlement = worker.settlement(connection_failed);
            let next = worker.after_settlement(connection_failed);
            &&& over ==> next.queue == worker.queue.skip(1) && next.turns_served
                == worker.turns_served + 1
            &&& !over ==> next.queue == worker.queue && next.turns_served == worker.turns_served
            &&& connection_failed ==> settlement is Reconnect
            &&& !connection_failed && spent ==> settlement is Recycle
            &&& !connection_failed && !spent ==> settlement is Keep
            &&& connection_failed || spent ==> !next.connected
            &&& !connection_failed && !spent ==> next.connected == worker.connected
            &&& next == (WorkerView {
                queue: next.queue,
                turns_served: next.turns_served,
                connected: next.connected,
                ..worker
            })
        }),
{
    if worker.queue.len() > 0 {
        assert(worker.queue.skip(1) =~= worker.queue.drop_first());
    }
}

/// A line of a single run holds text under `text`, else under `params.delta`, else under
/// `item.text`.
pub proof fn lines_hold_text_in_three_places(line: JsonTree)
    ensures
        ({
            let own = credentials::text_under(Some(line), "text"@);
            let delta = credentials::text_under(json::member(Some(line), "params"@), "delta"@);
            let item = credentials::text_under(json::member(Some(line), "item"@), "text"@);
            &&& own is Some ==> exec_backend::reported_text(line) == own
            &&& own is None && delta is Some ==> exec_backend::reported_text(line) == delta
            &&& own is None && delta is None ==> exec_backend::reported_text(line) == item
        }),
{
}

/// A line of a single run reports its end exactly where its type holds the word `completed`.
pub proof fn completion_is_in_the_type(line: JsonTree)
    ensures
        exec_backend::reports_completion(line) <==> (credentials::text_under(
            Some(line),
            "type"@,
        ) matches Some(kind) && exists|before: Seq<char>, after: Seq<char>|
            #![trigger before + "completed"@ + after]
            kind == before + "completed"@ + after),
{
    match json::member(Some(line), "type"@) {
        Some(JsonTree::Text(kind)) => {
            texts::parts_stand_in_their_texts(kind, "completed"@);
        },
        _ => {},
    }
}

/// The text of a line goes to the client as it is, and the end that a line reports ends the
/// listening. A line that is no document breaks the run off.
pub proof fn lines_are_forwarded(line: String)
    ensures
        ({
            let step = exec_backend::exec_step(ExecInput::Line(line));
            &&& json::json_parse(line@) matches Some(document) ==> {
                &&& exec_backend::reported_text(document) matches Some(said) ==> step.send == Some(
                    Ok::<CodexEventView, GatewayErrorView>(CodexEventView::TextDelta(said)),
                )
                &&& exec_backend::reported_text(document) is None ==> step.send is None
                &&& !step.kill
                &&& step.stop == exec_backend::reports_completion(document)
                &&& step.completed == exec_backend::reports_completion(document)
            }
            &&& json::json_parse(line@) is None ==> {
                &&& step.send == Some(
                    Err::<CodexEventView, GatewayErrorView>(
                        GatewayErrorView::Backend("codex exec returned malformed JSONL"@),
                    ),
                )
                &&& step.kill
                &&& step.stop
                &&& !step.completed
            }
        }),
{
}

/// A single run is not listened to any longer once its client is gone, its time is up or its output
/// ends. It is killed in the first two cases, and its client is told of the second and of output that
/// cannot be read.
pub proof fn other_inputs_end_the_listening()
    ensures
        ({
            let step = exec_backend::exec_step(ExecInput::Cancelled);
            step.send is None && step.kill && step.stop && !step.completed
        }),
        ({
            let step = exec_backend::exec_step(ExecInput::Expired);
            step.send == Some(Err::<CodexEventView, GatewayErrorView>(GatewayErrorView::Timeout))
                && step.kill && step.stop && !step.completed
        }),
        ({
            let step = exec_backend::exec_step(ExecInput::Closed);
            step.send is None && !step.kill && step.stop && !step.completed
        }),
        ({
            let step = exec_backend::exec_step(ExecInput::Unreadable);
            step.send == Some(
                Err::<CodexEventView, GatewayErrorView>(
                    GatewayErrorView::Backend("codex exec output could not be read"@),
                ),
            ) && !step.kill && step.stop && !step.completed
        }),
{
}

/// A single run is completed exactly where it reported its end and exited well. Otherwise its client
/// is told that it was not, unless that client is gone.
pub proof fn exits_end_single_runs(exit: ExecExit, completed: bool, cancelled: bool)
    ensures
        ({
            let end = exec_backend::exec_end(exit, completed, cancelled);
            let well = exit is Success && completed;
            &&& well ==> end == Some(
                Ok::<CodexEventView, GatewayErrorView>(CodexEventView::Completed),
            )
            &&& !well && cancelled ==> end is None
            &&& !well && !cancelled && exit is Unreaped ==> end == Some(
                Err::<CodexEventView, GatewayErrorView>(
                    GatewayErrorView::Backend("codex exec could not be reaped"@),
                ),
            )
            &&& !well && !cancelled && !(exit is Unreaped) ==> end == Some(
                Err::<CodexEventView, GatewayErrorView>(
                    GatewayErrorView::Backend("codex exec exited before completion"@),
                ),
            )
        }),
{
}

/// A single run begins unfinished, follows its inputs while it is listened to, and then stays as it
/// is and says nothing more.
pub proof fn single_runs_follow_their_inputs(run: ExecRun, input: ExecInput)
    ensures
        !ExecRun::begun().completed && !ExecRun::begun().stopped,
        run.stopped ==> run.after(input) == run && run.step(input).send is None && !run.step(
            input,
        ).kill && run.step(input).stop && run.step(input).completed == run.completed,
        !run.stopped ==> run.step(input) == exec_backend::exec_step(input) && run.after(
            input,
        ).stopped == exec_backend::exec_step(input).stop && run.after(input).completed
            == exec_backend::exec_step(input).completed,
{
}

/// What was sent of a single run grows by what each input sends, in order, and ends with what its
/// exit sends.
pub proof fn single_runs_send_in_order(
    run: ExecRun,
    inputs: Seq<ExecInput>,
    input: ExecInput,
    exit: ExecExit,
    cancelled: bool,
)
    ensures
        ({
            let send = run.after_all(inputs).step(input).send;
            &&& send is Some ==> run.sent(inputs.push(input)) == run.sent(inputs) + seq![send]
            &&& send is None ==> run.sent(inputs.push(input)) == run.sent(inputs)
        }),
        ({
            let end = exec_backend::exec_end(exit, run.after_all(inputs).completed, cancelled);
            &&& end is Some ==> run.whole(inputs, exit, cancelled) == run.sent(inputs) + seq![end]
            &&& end is None ==> run.whole(inputs, exit, cancelled) == run.sent(inputs)
        }),
        run.sent(Seq::<ExecInput>::empty()).len() == 0,
{
    let more = inputs.push(input);
    assert(more.drop_last() =~= inputs);
    let none = Seq::<ArrivalView>::empty();
    assert(run.sent(inputs) + none =~= run.sent(inputs));
}

} // verus!
