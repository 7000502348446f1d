//! One request from the moment that it may run: what the backend does with it decides the answer.
use crate::completion;
use crate::completion::{
    Arrival, ArrivalView, Collector, CollectorView, Progress, ProgressView, RunEnd, RunEndView,
};
use crate::error;
use crate::error::{GatewayError, GatewayErrorView, Reply};
use crate::json::JsonTree;
use crate::protocol::CodexEventView;
use crate::stream::{Endpoint, EventStream, EventStreamView};
use crate::text;
use vstd::prelude::*;
use vstd::string::*;

verus! {

/// A request that runs.
#[derive(Debug)]
pub struct Exchange {
    pub endpoint: Endpoint,
    /// The answer is to be given piece by piece.
    pub streaming: bool,
    pub id: String,
    pub model: String,
    pub collector: Collector,
}

/// An [`Exchange`] with its texts as characters.
pub struct ExchangeView {
    pub endpoint: Endpoint,
    pub streaming: bool,
    pub id: Seq<char>,
    pub model: Seq<char>,
    pub collector: CollectorView,
}

impl View for Exchange {
    type V = ExchangeView;

    open spec fn view(&self) -> ExchangeView {
        ExchangeView {
            endpoint: self.endpoint,
            streaming: self.streaming,
            id: self.id@,
            model: self.model@,
            collector: self.collector@,
        }
    }
}

/// What follows once the backend has looked at a request.
#[derive(Debug)]
pub enum Opening {
    /// The request is answered at once.
    Refuse(Reply),
    /// The answer is given piece by piece.
    Stream(EventStream),
    /// The answer is collected first.
    Collect,
}

/// An [`Opening`] with what its parts say.
pub enum OpeningView {
    Refuse(error::ReplyView),
    Stream(EventStreamView),
    Collect,
}

impl View for Opening {
    type V = OpeningView;

    open spec fn view(&self) -> OpeningView {
        match self {
            Opening::Refuse(reply) => OpeningView::Refuse(reply@),
            Opening::Stream(stream) => OpeningView::Stream(stream@),
            Opening::Collect => OpeningView::Collect,
        }
    }
}

/// What an answer that is collected waits for.
#[derive(Debug)]
pub enum CollectEvent {
    /// Something arrived from the run.
    Arrived(Arrival),
    /// The time of the request is up.
    TimedOut,
}

/// A [`CollectEvent`] with its texts as characters.
pub enum CollectEventView {
    Arrived(ArrivalView),
    TimedOut,
}

impl View for CollectEvent {
    type V = CollectEventView;

    open spec fn view(&self) -> CollectEventView {
        match self {
            CollectEvent::Arrived(arrival) => CollectEventView::Arrived(
                completion::arrival_view(*arrival),
            ),
            CollectEvent::TimedOut => CollectEventView::TimedOut,
        }
    }
}

/// The answer to a request. Where `cancel` is set, the run is still going on and is to be stopped.
#[derive(Debug)]
pub struct Answer {
    pub reply: Reply,
    pub cancel: bool,
}

/// An [`Answer`] with what its reply says.
pub struct AnswerView {
    pub reply: error::ReplyView,
    pub cancel: bool,
}

/// An answer or none, with what its reply says.
pub open spec fn answer_view(answer: Option<Answer>) -> Option<AnswerView> {
    match answer {
        Some(answer) => Some(AnswerView { reply: answer.reply@, cancel: answer.cancel }),
        None => None,
    }
}

impl ExchangeView {
    /// What follows once the backend has taken the request, or turned it down.
    pub open spec fn opening(self, taken: Result<(), GatewayErrorView>) -> OpeningView {
        match taken {
            Err(failure) => OpeningView::Refuse(
                error::error_reply(
                    error::SERVICE_UNAVAILABLE,
                    failure.message(),
                    "backend_unavailable"@,
                    None,
                    None,
                ),
            ),
            Ok(()) => if self.streaming {
                OpeningView::Stream(
                    EventStreamView {
                        endpoint: self.endpoint,
                        id: self.id,
                        model: self.model,
                        total: 0,
                        max_bytes: self.collector.max_bytes,
                        finished: false,
                    },
                )
            } else {
                OpeningView::Collect
            },
        }
    }

    /// The body of the answer that holds this text.
    pub open spec fn body(self, text: Seq<char>, now: u64) -> JsonTree {
        match self.endpoint {
            Endpoint::Chat => completion::completion_tree(self.id, now, self.model, text),
            Endpoint::Responses => completion::response_tree(self.id, self.model, text),
        }
    }

    /// The answer to a run that ended in this way, with all the text so far.
    pub open spec fn reply(self, end: RunEndView, now: u64) -> error::ReplyView {
        completion::end_reply(end, self.body(self.collector.text, now))
    }

    /// The exchange after an event.
    pub open spec fn after(self, event: CollectEventView) -> ExchangeView {
        match event {
            CollectEventView::Arrived(arrival) => ExchangeView {
                collector: self.collector.after(arrival),
                ..self
            },
            CollectEventView::TimedOut => self,
        }
    }

    /// The answer that an event leads to, where it ends the run.
    pub open spec fn answer(self, event: CollectEventView, now: u64) -> Option<AnswerView> {
        match event {
            CollectEventView::TimedOut => Some(
                AnswerView { reply: self.reply(RunEndView::TimedOut, now), cancel: true },
            ),
            CollectEventView::Arrived(arrival) => match self.collector.progress(arrival) {
                ProgressView::Continue => None,
                ProgressView::Completed => Some(
                    AnswerView { reply: self.reply(RunEndView::Completed, now), cancel: false },
                ),
                ProgressView::Failed { error, cancel } => Some(
                    AnswerView { reply: self.reply(RunEndView::Failed(error), now), cancel },
                ),
            },
        }
    }

    /// The exchange after a sequence of arrivals.
    pub open spec fn after_all(self, arrivals: Seq<ArrivalView>) -> ExchangeView
        decreases arrivals.len(),
    {
        if arrivals.len() == 0 {
            self
        } else {
            self.after_all(arrivals.drop_last()).after(CollectEventView::Arrived(arrivals.last()))
        }
    }
}

impl Exchange {
    /// A request of which nothing has run yet.
    pub fn new(endpoint: Endpoint, streaming: bool, id: String, model: String, max_bytes: usize) -> (
    exchange: Exchange)
        ensures
            exchange@ == (ExchangeView {
                endpoint,
                streaming,
                id: id@,
                model: model@,
                collector: CollectorView { text: Seq::empty(), max_bytes },
            }),
    {
        Exchange { endpoint, streaming, id, model, collector: Collector::new(max_bytes) }
    }

    /// What follows once the backend has taken the request, or turned it down.
    pub fn open(&self, taken: Result<(), GatewayError>) -> (opening: Opening)
        ensures
            opening@ == self@.opening(
                match taken {
                    Ok(()) => Ok(()),
                    Err(failure) => Err(failure@),
                },
            ),
    {
        match taken {
            Err(failure) => Opening::Refuse(error::backend_rejection_response(&failure)),
            Ok(()) => {
                if self.streaming {
                    Opening::Stream(
                        EventStream::new(
                            self.endpoint,
                            self.id.clone(),
                            self.model.clone(),
                            self.collector.max_bytes,
                        ),
                    )
                } else {
                    Opening::Collect
                }
            },
        }
    }

    /// The answer to a run that ended in this way.
    fn reply(&self, end: RunEnd, now: u64) -> (reply: Reply)
        ensures
            reply@ == self@.reply(end@, now),
    {
        match self.endpoint {
            Endpoint::Chat => completion::chat_reply(
                end,
                self.id.as_str(),
                now,
                self.model.as_str(),
                self.collector.text.as_str(),
            ),
            Endpoint::Responses => completion::response_reply(
                end,
                self.id.as_str(),
                self.model.as_str(),
                self.collector.text.as_str(),
            ),
        }
    }

    /// Takes in an event, and gives the answer once the run has ended. Until then more is to come.
    pub fn accept(&mut self, event: CollectEvent, now: u64) -> (answer: Option<Answer>)
        ensures
            final(self)@ == old(self)@.after(event@),
            answer_view(answer) == old(self)@.answer(event@, now),
    {
        match event {
            CollectEvent::TimedOut => Some(
                Answer { reply: self.reply(RunEnd::TimedOut, now), cancel: true },
            ),
            CollectEvent::Arrived(arrival) => match self.collector.accept(arrival) {
                Progress::Continue => None,
                Progress::Completed => Some(
                    Answer { reply: self.reply(RunEnd::Completed, now), cancel: false },
                ),
                Progress::Failed { error, cancel } => Some(
                    Answer { reply: self.reply(RunEnd::Failed(error), now), cancel },
                ),
            },
        }
    }
}

proof fn lemma_collected_text(exchange: ExchangeView, arrivals: Seq<ArrivalView>)
    requires
        exchange.collector.text == Seq::<char>::empty(),
    ensures
        exchange.after_all(arrivals) == (ExchangeView {
            collector: CollectorView {
                text: completion::arrived_text(arrivals),
                ..exchange.collector
            },
            ..exchange
        }),
    decreases arrivals.len(),
{
    if arrivals.len() > 0 {
        lemma_collected_text(exchange, arrivals.drop_last());
    }
}

/// A run that is completed within the limit is answered with success, and with all the text that
/// arrived, whole and in order. Before that it is not answered at all.
pub proof fn completed_exchanges_hold_the_whole_text(
    exchange: ExchangeView,
    arrivals: Seq<ArrivalView>,
    now: u64,
)
    requires
        exchange.collector.text == Seq::<char>::empty(),
        completion::is_pending(arrivals, exchange.collector.max_bytes),
    ensures
        exchange.after_all(arrivals).answer(
            CollectEventView::Arrived(
                Some(Ok::<CodexEventView, GatewayErrorView>(CodexEventView::Completed)),
            ),
            now,
        ) == Some(
            AnswerView {
                reply: error::ReplyView {
                    status: error::OK,
                    body: exchange.body(completion::arrived_text(arrivals), now),
                },
                cancel: false,
            },
        ),
        arrivals.len() > 0 ==> exchange.after_all(arrivals.drop_last()).answer(
            CollectEventView::Arrived(arrivals.last()),
            now,
        ) is None,
{
    lemma_collected_text(exchange, arrivals);
    if arrivals.len() > 0 {
        lemma_collected_text(exchange, arrivals.drop_last());
        assert(completion::is_ongoing(arrivals[arrivals.len() - 1]));
    }
}

/// An answer with success is given for a completed run and for no other event, and a run that is
/// still going on is stopped.
pub proof fn failed_exchanges_are_not_completions(
    exchange: ExchangeView,
    event: CollectEventView,
    now: u64,
)
    ensures
        exchange.answer(event, now) matches Some(answer) ==> (answer.reply.status == error::OK <==> event
            == CollectEventView::Arrived(
            Some(Ok::<CodexEventView, GatewayErrorView>(CodexEventView::Completed)),
        )),
        event is TimedOut ==> exchange.answer(event, now)->Some_0.cancel,
        event matches CollectEventView::Arrived(Some(Ok(CodexEventView::TextDelta(delta)))) && text::byte_len(
            exchange.collector.text + delta,
        ) > exchange.collector.max_bytes ==> exchange.answer(event, now)->Some_0.cancel,
{
}

} // verus!
