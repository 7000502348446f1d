//! The fallback: one `codex exec` child per request, which reports in JSON lines.
use crate::completion;
use crate::completion::{Arrival, ArrivalView};
use crate::error::{GatewayError, GatewayErrorView};
use crate::json;
use crate::json::JsonTree;
use crate::protocol::{CodexEvent, CodexEventView};
use crate::text;
use crate::transcript;
use crate::transcript::CodexInput;
use serde_json::Value;
use vstd::prelude::*;
use vstd::string::*;

verus! {

/// Where a request goes.
#[derive(Debug, Clone, Copy, PartialEq, Eq, Structural)]
pub enum Route {
    AppServer,
    Exec,
    /// Nowhere: the backend is unavailable.
    Refused,
}

/// Whether any worker of a pool is ready, given whether each one is.
pub fn any_ready(workers: &[bool]) -> (ready: bool)
    ensures
        ready == workers@.contains(true),
{
    let mut i: usize = 0;
    while i < workers.len()
        invariant
            i <= workers.len(),
            forall|j: int| 0 <= j < i ==> !#[trigger] workers@[j],
        decreases workers.len() - i,
    {
        if workers[i] {
            proof {
                assert(workers@[i as int]);
            }
            return true;
        }
        i = i + 1;
    }
    false
}

/// Where a request goes: to the pool where it is ready, otherwise to the fallback where that is
/// allowed.
pub fn route(pool_ready: bool, exec_fallback: bool) -> (route: Route)
    ensures
        route == (if pool_ready {
            Route::AppServer
        } else if exec_fallback {
            Route::Exec
        } else {
            Route::Refused
        }),
{
    if pool_ready {
        Route::AppServer
    } else if exec_fallback {
        Route::Exec
    } else {
        Route::Refused
    }
}

/// The prompt for a `codex exec` child: the texts of the input in order. It cannot be given images.
pub fn exec_prompt(input: &[CodexInput]) -> (prompt: Result<String, GatewayError>)
    ensures
        match prompt {
            Ok(prompt) => {
                &&& transcript::image_count(transcript::input_views(input@)) == 0
                &&& prompt@ == transcript::input_text(transcript::input_views(input@))
            },
            Err(error) => {
                &&& transcript::image_count(transcript::input_views(input@)) > 0
                &&& error@ == GatewayErrorView::Unavailable
            },
        },
{
    let mut prompt: String = String::new();
    let mut has_image: bool = false;
    let mut i: usize = 0;
    while i < input.len()
        invariant
            i <= input.len(),
            has_image == (transcript::image_count(
                transcript::input_views(input@.take(i as int)),
            ) > 0),
            prompt@ == transcript::input_text(transcript::input_views(input@.take(i as int))),
        decreases input.len() - i,
    {
        proof {
            let front = transcript::input_views(input@.take(i as int));
            let next = transcript::input_views(input@.take(i + 1));
            assert(next.drop_last() =~= front);
            assert(next.last() == input@[i as int]@);
        }
        match &input[i] {
            CodexInput::Text { text } => {
                prompt.append(text.as_str());
            },
            CodexInput::Image { url, detail } => {
                has_image = true;
            },
        }
        i = i + 1;
    }
    proof {
        assert(input@.take(input@.len() as int) =~= input@);
    }
    if has_image {
        Err(GatewayError::Unavailable)
    } else {
        Ok(prompt)
    }
}

/// The text that a line reports: its own, that of a delta, or that of an item.
pub open spec fn reported_text(line: JsonTree) -> Option<Seq<char>> {
    let own = json::text_of(json::member(Some(line), "text"@));
    let delta = json::text_of(json::member(json::member(Some(line), "params"@), "delta"@));
    let item = json::text_of(json::member(json::member(Some(line), "item"@), "text"@));
    if own is Some {
        own
    } else if delta is Some {
        delta
    } else {
        item
    }
}

/// The text that a line reports.
pub fn extract_text(line: &Value) -> (found: Option<String>)
    ensures
        text::opt_view(found) == reported_text(json::value_tree(*line)),
{
    let own: Option<String> = json::get_text(json::get(Some(line), "text"));
    if own.is_some() {
        return own;
    }
    let delta: Option<String> = json::get_text(
        json::get(json::get(Some(line), "params"), "delta"),
    );
    if delta.is_some() {
        return delta;
    }
    json::get_text(json::get(json::get(Some(line), "item"), "text"))
}

/// The line reports the end of the run.
pub open spec fn reports_completion(line: JsonTree) -> bool {
    match json::text_of(json::member(Some(line), "type"@)) {
        Some(kind) => text::contains_text(kind, "completed"@),
        None => false,
    }
}

/// What happens to a child while it runs.
#[derive(Debug)]
pub enum ExecInput {
    /// The client is gone.
    Cancelled,
    /// The time of the request is up.
    Expired,
    /// The child wrote a line.
    Line(String),
    /// The child closed its output.
    Closed,
    /// The output cannot be read.
    Unreadable,
}

/// What is to be done about it.
#[derive(Debug)]
pub struct ExecStep {
    /// What the client is to get; nothing where this is absent.
    pub send: Arrival,
    /// The child is to be killed.
    pub kill: bool,
    /// The child is not to be listened to any longer.
    pub stop: bool,
    /// The child reported the end of the run.
    pub completed: bool,
}

/// An [`ExecStep`] with its text as characters.
pub struct ExecStepView {
    pub send: ArrivalView,
    pub kill: bool,
    pub stop: bool,
    pub completed: bool,
}

impl View for ExecStep {
    type V = ExecStepView;

    open spec fn view(&self) -> ExecStepView {
        ExecStepView {
            send: completion::arrival_view(self.send),
            kill: self.kill,
            stop: self.stop,
            completed: self.completed,
        }
    }
}

/// What a line that is JSON leads to: its text is handed on, and the end of the run is noted.
pub open spec fn document_step(line: JsonTree) -> ExecStepView {
    ExecStepView {
        send: match reported_text(line) {
            Some(text) => Some(Ok(CodexEventView::TextDelta(text))),
            None => None,
        },
        kill: false,
        stop: reports_completion(line),
        completed: reports_completion(line),
    }
}

/// What a line leads to.
pub open spec fn line_step(line: Seq<char>) -> ExecStepView {
    match json::json_parse(line) {
        Some(document) => document_step(document),
        None => ExecStepView {
            send: Some(Err(GatewayErrorView::Backend("codex exec returned malformed JSONL"@))),
            kill: true,
            stop: true,
            completed: false,
        },
    }
}

/// What is to be done about what happened to a child.
pub open spec fn exec_step(input: ExecInput) -> ExecStepView {
    match input {
        ExecInput::Cancelled => ExecStepView {
            send: None,
            kill: true,
            stop: true,
            completed: false,
        },
        ExecInput::Expired => ExecStepView {
            send: Some(Err(GatewayErrorView::Timeout)),
            kill: true,
            stop: true,
            completed: false,
        },
        ExecInput::Line(line) => line_step(line@),
        ExecInput::Closed => ExecStepView {
            send: None,
            kill: false,
            stop: true,
            completed: false,
        },
        ExecInput::Unreadable => ExecStepView {
            send: Some(Err(GatewayErrorView::Backend("codex exec output could not be read"@))),
            kill: false,
            stop: true,
            completed: false,
        },
    }
}

/// What a line that is JSON leads to.
pub fn handle_document(line: &Value) -> (step: ExecStep)
    ensures
        step@ == document_step(json::value_tree(*line)),
{
    let send: Arrival = match extract_text(line) {
        Some(text) => Some(Ok(CodexEvent::TextDelta(text))),
        None => None,
    };
    let completed: bool = match json::get_text(json::get(Some(line), "type")) {
        Some(kind) => text::contains(kind.as_str(), "completed"),
        None => false,
    };
    ExecStep { send, kill: false, stop: completed, completed }
}

/// What is to be done about what happened to a child.
pub fn handle_exec(input: &ExecInput) -> (step: ExecStep)
    ensures
        step@ == exec_step(*input),
{
    match input {
        ExecInput::Cancelled => ExecStep { send: None, kill: true, stop: true, completed: false },
        ExecInput::Expired => ExecStep {
            send: Some(Err(GatewayError::Timeout)),
            kill: true,
            stop: true,
            completed: false,
        },
        ExecInput::Line(line) => match json::parse_text(line.as_str()) {
            Ok(document) => handle_document(&document),
            Err(_) => ExecStep {
                send: Some(
                    Err(GatewayError::Backend("codex exec returned malformed JSONL".to_owned())),
                ),
                kill: true,
                stop: true,
                completed: false,
            },
        },
        ExecInput::Closed => ExecStep { send: None, kill: false, stop: true, completed: false },
        ExecInput::Unreadable => ExecStep {
            send: Some(
                Err(GatewayError::Backend("codex exec output could not be read".to_owned())),
            ),
            kill: false,
            stop: true,
            completed: false,
        },
    }
}

/// How a child came to its end.
#[derive(Debug, Clone, Copy, PartialEq, Eq, Structural)]
pub enum ExecExit {
    Success,
    Failure,
    /// It could not be waited for.
    Unreaped,
}

/// The last thing that the client gets, given how the child ended, whether it had reported the end
/// of the run, and whether the client is gone.
pub open spec fn exec_end(exit: ExecExit, completed: bool, cancelled: bool) -> ArrivalView {
    if exit is Success && completed {
        Some(Ok(CodexEventView::Completed))
    } else if cancelled {
        None
    } else if exit is Unreaped {
        Some(Err(GatewayErrorView::Backend("codex exec could not be reaped"@)))
    } else {
        Some(Err(GatewayErrorView::Backend("codex exec exited before completion"@)))
    }
}

/// The last thing that the client gets.
pub fn finish_exec(exit: ExecExit, completed: bool, cancelled: bool) -> (send: Arrival)
    ensures
        completion::arrival_view(send) == exec_end(exit, completed, cancelled),
{
    match exit {
        ExecExit::Success if completed => Some(Ok(CodexEvent::Completed)),
        ExecExit::Unreaped if !cancelled => Some(
            Err(GatewayError::Backend("codex exec could not be reaped".to_owned())),
        ),
        _ if !cancelled => Some(
            Err(GatewayError::Backend("codex exec exited before completion".to_owned())),
        ),
        _ => None,
    }
}

/// A run of a child.
#[derive(Debug)]
pub struct ExecRun {
    /// The child reported the end of the run.
    pub completed: bool,
    /// The child is not listened to any longer.
    pub stopped: bool,
}

impl ExecRun {
    /// A run that has just begun.
    pub open spec fn begun() -> ExecRun {
        ExecRun { completed: false, stopped: false }
    }

    /// The run after something happened to the child.
    pub open spec fn after(self, input: ExecInput) -> ExecRun {
        if self.stopped {
            self
        } else {
            ExecRun { completed: exec_step(input).completed, stopped: exec_step(input).stop }
        }
    }

    /// What is to be done about what happened to the child. Once it is not listened to any longer,
    /// nothing is.
    pub open spec fn step(self, input: ExecInput) -> ExecStepView {
        if self.stopped {
            ExecStepView { send: None, kill: false, stop: true, completed: self.completed }
        } else {
            exec_step(input)
        }
    }

    /// The run after a sequence of such things.
    pub open spec fn after_all(self, inputs: Seq<ExecInput>) -> ExecRun
        decreases inputs.len(),
    {
        if inputs.len() == 0 {
            self
        } else {
            self.after_all(inputs.drop_last()).after(inputs.last())
        }
    }

    /// What the client gets while the child runs.
    pub open spec fn sent(self, inputs: Seq<ExecInput>) -> Seq<ArrivalView>
        decreases inputs.len(),
    {
        if inputs.len() == 0 {
            Seq::empty()
        } else {
            self.sent(inputs.drop_last()) + arrivals(
                self.after_all(inputs.drop_last()).step(inputs.last()).send,
            )
        }
    }

    /// All that the client gets of a run that ends in this way.
    pub open spec fn whole(
        self,
        inputs: Seq<ExecInput>,
        exit: ExecExit,
        cancelled: bool,
    ) -> Seq<ArrivalView> {
        self.sent(inputs) + arrivals(exec_end(exit, self.after_all(inputs).completed, cancelled))
    }

    /// A run that has just begun.
    pub fn new() -> (run: ExecRun)
        ensures
            run == ExecRun::begun(),
    {
        ExecRun { completed: false, stopped: false }
    }

    /// Takes in what happened to the child, and tells what is to be done.
    pub fn accept(&mut self, input: &ExecInput) -> (step: ExecStep)
        ensures
            *final(self) == old(self).after(*input),
            step@ == old(self).step(*input),
    {
        if self.stopped {
            return ExecStep { send: None, kill: false, stop: true, completed: self.completed };
        }
        let step: ExecStep = handle_exec(input);
        self.completed = step.completed;
        self.stopped = step.stop;
        step
    }

    /// The client cannot be reached: the run is over, and does not count as completed.
    pub fn abandon(&mut self)
        ensures
            *final(self) == (ExecRun { completed: false, stopped: true }),
    {
        self.completed = false;
        self.stopped = true;
    }

    /// The last thing that the client gets.
    pub fn finish(&self, exit: ExecExit, cancelled: bool) -> (send: Arrival)
        ensures
            completion::arrival_view(send) == exec_end(exit, self.completed, cancelled),
    {
        finish_exec(exit, self.completed, cancelled)
    }
}

/// Something that is to be sent, as a list.
pub open spec fn arrivals(send: ArrivalView) -> Seq<ArrivalView> {
    if send is Some {
        seq![send]
    } else {
        Seq::empty()
    }
}

/// What tells a client that its run is completed.
pub open spec fn completed_arrival() -> ArrivalView {
    Some(Ok::<CodexEventView, GatewayErrorView>(CodexEventView::Completed))
}

/// A line reports the end of the run while the child is listened to.
pub open spec fn completes_at(run: ExecRun, inputs: Seq<ExecInput>, i: int) -> bool {
    &&& 0 <= i < inputs.len()
    &&& !run.after_all(inputs.take(i)).stopped
    &&& inputs[i] matches ExecInput::Line(line) && (json::json_parse(line@) matches Some(document)
        && reports_completion(document))
}

proof fn lemma_nothing_completes_before_the_end(run: ExecRun, inputs: Seq<ExecInput>)
    ensures
        !run.sent(inputs).contains(completed_arrival()),
    decreases inputs.len(),
{
    if inputs.len() > 0 {
        let front = inputs.drop_last();
        lemma_nothing_completes_before_the_end(run, front);
        let earlier = run.sent(front);
        let all = run.sent(inputs);
        if all.contains(completed_arrival()) {
            let k = choose|k: int| 0 <= k < all.len() && all[k] == completed_arrival();
            if k < earlier.len() {
                assert(earlier[k] == completed_arrival());
            }
        }
    }
}

proof fn lemma_completed_runs(inputs: Seq<ExecInput>)
    ensures
        ExecRun::begun().after_all(inputs).completed <==> exists|i: int|
            completes_at(ExecRun::begun(), inputs, i),
        ExecRun::begun().after_all(inputs).completed ==> ExecRun::begun().after_all(inputs).stopped,
    decreases inputs.len(),
{
    let run = ExecRun::begun();
    if inputs.len() > 0 {
        let front = inputs.drop_last();
        let n = front.len() as int;
        lemma_completed_runs(front);
        assert(inputs.take(n) =~= front);
        if run.after_all(inputs).completed {
            if run.after_all(front).stopped {
                let i = choose|i: int| completes_at(run, front, i);
                assert(inputs.take(i) =~= front.take(i));
                assert(completes_at(run, inputs, i));
            } else {
                assert(completes_at(run, inputs, n));
            }
        }
        if exists|i: int| completes_at(run, inputs, i) {
            let i = choose|i: int| completes_at(run, inputs, i);
            if i < n {
                assert(inputs.take(i) =~= front.take(i));
                assert(completes_at(run, front, i));
            }
        }
    }
}

/// Over a whole run, a client is told of completion exactly where a line reported the end of the
/// run while the child was listened to and the child then ended well. It is told so once, and last.
pub proof fn completed_exec_runs_end_with_it(
    inputs: Seq<ExecInput>,
    exit: ExecExit,
    cancelled: bool,
)
    ensures
        ({
            let whole = ExecRun::begun().whole(inputs, exit, cancelled);
            &&& whole.contains(completed_arrival()) <==> exit is Success && exists|i: int|
                completes_at(ExecRun::begun(), inputs, i)
            &&& forall|k: int|
                0 <= k < whole.len() && #[trigger] whole[k] == completed_arrival() ==> k
                    == whole.len() - 1
        }),
{
    let run = ExecRun::begun();
    let sent = run.sent(inputs);
    let whole = run.whole(inputs, exit, cancelled);
    lemma_nothing_completes_before_the_end(run, inputs);
    lemma_completed_runs(inputs);
    assert forall|k: int| 0 <= k < whole.len() && #[trigger] whole[k] == completed_arrival() implies k
        == whole.len() - 1 by {
        if k < sent.len() {
            assert(sent[k] == completed_arrival());
        }
    }
    if exit is Success && run.after_all(inputs).completed {
        assert(whole[whole.len() - 1] == completed_arrival());
    }
}

/// A run counts as completed only where the child said so and then ended well. Nothing that
/// happens to the child before its end is reported as a completion.
pub proof fn exec_completions_need_a_clean_exit(
    input: ExecInput,
    exit: ExecExit,
    completed: bool,
    cancelled: bool,
)
    ensures
        exec_step(input).send != Some(
            Ok::<CodexEventView, GatewayErrorView>(CodexEventView::Completed),
        ),
        exec_end(exit, completed, cancelled) == Some(
            Ok::<CodexEventView, GatewayErrorView>(CodexEventView::Completed),
        ) <==> exit is Success && completed,
        exec_step(input).completed ==> input is Line && exec_step(input).stop,
        exec_step(input).kill ==> exec_step(input).stop,
{
}

} // verus!
