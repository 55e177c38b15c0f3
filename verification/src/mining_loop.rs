//! The loop that talks to the node: it asks for block templates, hands each on as a job, and ends
//! when the stream does or when it is told to, once the mining thread has ended.
//!
//! Receiving and sending is a host's business. What follows from what was received is decided here.
use vstd::prelude::*;
use vstd::string::*;

use crate::devfund::{next_pay_address, DevfundCounter};
use crate::text::push_decimal;
#[allow(unused_imports)]
use crate::devfund::{counter_after, DEVFUND_ADDRESS, DEVFUND_PERIOD};
#[allow(unused_imports)]
use crate::text::{decimal, law_decimals_differ};

verus! {

/// Messages about templates are this far apart at least, in nanoseconds.
pub const TEMPLATE_LOG_PERIOD: u64 = 2_000_000_000;

/// A request for a block template.
pub struct TemplateRequest {
    pub pay_address: String,
    pub extra_data: String,
    pub inference_result: String,
}

impl TemplateRequest {
    /// Whether this is the request of a miner of the given version and address, when the counter
    /// of the development fund stands as it does.
    pub open spec fn asks(
        &self,
        counter: DevfundCounter,
        mining_address: Seq<char>,
        version: Seq<char>,
    ) -> bool {
        &&& self.pay_address@ == (if counter.pays_fund() {
            DEVFUND_ADDRESS@
        } else {
            mining_address
        })
        &&& self.extra_data@ == "keryx-miner-ios/"@ + version
        &&& self.inference_result@.len() == 0
    }
}

/// The next request for a block template.
pub fn template_request(
    counter: &mut DevfundCounter,
    mining_address: &str,
    version: &str,
) -> (request: TemplateRequest)
    requires
        old(counter).wf(),
    ensures
        final(counter).wf(),
        final(counter).next == (old(counter).next + 1) % (DEVFUND_PERIOD as int),
        request.asks(*old(counter), mining_address@, version@),
{
    let pay_address: String = next_pay_address(counter, mining_address);
    let mut extra_data: String = "keryx-miner-ios/".to_owned();
    extra_data.append(version);
    TemplateRequest { pay_address, extra_data, inference_result: String::new() }
}

/// What the loop sends when it begins.
pub enum OpeningMessage {
    /// Asks to be told of new templates.
    Subscribe,
    /// Asks for a template.
    Request(TemplateRequest),
}

/// Why the loop could not begin. The error is given as its text.
pub enum OpenFailure {
    Endpoint(String),
    Connect(String),
    Stream(String),
}

/// What is logged when the loop could not begin.
pub fn open_failed(failure: &OpenFailure) -> (message: String)
    ensures
        message@ == (match failure {
            OpenFailure::Endpoint(e) => "ios: invalid gRPC endpoint: "@ + e@,
            OpenFailure::Connect(e) => "ios: gRPC connect failed: "@ + e@,
            OpenFailure::Stream(e) => "ios: gRPC stream open failed: "@ + e@,
        }),
{
    match failure {
        OpenFailure::Endpoint(e) => with_error("ios: invalid gRPC endpoint: ", e.as_str()),
        OpenFailure::Connect(e) => with_error("ios: gRPC connect failed: ", e.as_str()),
        OpenFailure::Stream(e) => with_error("ios: gRPC stream open failed: ", e.as_str()),
    }
}

/// A message that ends in an error.
fn with_error(text: &str, error: &str) -> (message: String)
    ensures
        message@ == text@ + error@,
{
    let mut message: String = text.to_owned();
    message.append(error);
    message
}

/// What the loop is woken by. Errors are given as their texts.
pub enum LoopEvent {
    /// A template with a block came, at this time: the DAA score in the block's header, if it has
    /// one, and whether a job could be made of the block.
    Template { daa: Option<u64>, job: Result<(), String>, at: u64 },
    /// The node has a new template.
    NewTemplate,
    /// The node answered a block, with this reason to reject it.
    SubmitResponse(String),
    /// Anything else came.
    Other,
    /// The stream ended.
    Closed,
    /// The stream failed.
    ReceiveError(String),
    /// The stop signal changed to this.
    StopSignal(bool),
    /// The mining thread was told that no job will come any more, and has ended.
    WorkerJoined,
}

/// What the host does.
pub enum LoopAction {
    /// Nothing.
    Wait,
    /// Make the job of the template the one that is mined.
    Publish,
    /// Send a request.
    Request(TemplateRequest),
    /// Receive no more; tell the mining thread that no job will come any more, and join it.
    Leave,
    /// Return: the loop is over.
    Return,
}

/// What the host does, and what it logs behind it.
pub struct LoopReply {
    pub action: LoopAction,
    pub message: Option<String>,
}

/// How far the loop is.
#[derive(Clone, Copy, PartialEq, Eq, Structural, Debug)]
pub enum LoopPhase {
    /// It receives what the node sends.
    Receiving,
    /// It waits for the mining thread to end.
    Leaving,
    /// It is over.
    Over,
}

/// The phase behind an event.
pub open spec fn phase_at(phase: LoopPhase, event: LoopEvent) -> LoopPhase {
    if ends_loop(event) {
        LoopPhase::Leaving
    } else if event is WorkerJoined {
        LoopPhase::Over
    } else {
        phase
    }
}

/// Whether an event can come in a phase.
pub open spec fn can_come(phase: LoopPhase, event: LoopEvent) -> bool {
    match phase {
        LoopPhase::Receiving => !(event is WorkerJoined),
        LoopPhase::Leaving => event is WorkerJoined,
        LoopPhase::Over => false,
    }
}

/// The loop's state.
pub struct MiningLoop {
    pub mining_address: String,
    pub version: String,
    /// When a message about a template was logged last.
    pub last_log: Option<u64>,
    pub phase: LoopPhase,
}

/// Whether a message about a template is due.
pub open spec fn log_is_due(last_log: Option<u64>, at: u64) -> bool {
    match last_log {
        Some(last) => at - last >= TEMPLATE_LOG_PERIOD,
        None => true,
    }
}

/// What is logged at an event.
pub open spec fn message_at(last_log: Option<u64>, event: LoopEvent) -> Option<Seq<char>> {
    match event {
        LoopEvent::Template { daa, job, at } => {
            let score = decimal(
                match daa {
                    Some(d) => d as nat,
                    None => 0,
                },
            );
            match job {
                Ok(_) => if log_is_due(last_log, at) {
                    Some("ios: mining on latest template DAA="@ + score)
                } else {
                    None
                },
                Err(e) => Some("ios: bad template DAA="@ + score + ": "@ + e@),
            }
        },
        LoopEvent::SubmitResponse(reject) => Some("ios: submit block response: reject="@ + reject@),
        LoopEvent::Closed => Some("ios: gRPC stream closed"@),
        LoopEvent::ReceiveError(e) => Some("ios: gRPC recv error: "@ + e@),
        LoopEvent::StopSignal(true) => Some("ios: stop requested"@),
        LoopEvent::WorkerJoined => Some("ios: mining loop ended"@),
        _ => None,
    }
}

/// When a message about a template was logged last, behind an event.
pub open spec fn last_log_at(last_log: Option<u64>, event: LoopEvent) -> Option<u64> {
    match event {
        LoopEvent::Template { daa, job: Ok(_), at } => if log_is_due(last_log, at) {
            Some(at)
        } else {
            last_log
        },
        _ => last_log,
    }
}

/// Whether an event ends the loop.
pub open spec fn ends_loop(event: LoopEvent) -> bool {
    event is Closed || event is ReceiveError || event == LoopEvent::StopSignal(true)
}

impl MiningLoop {
    /// A loop in which nothing has come yet.
    pub fn new(mining_address: String, version: String) -> (l: MiningLoop)
        ensures
            l.mining_address == mining_address,
            l.version == version,
            l.last_log is None,
            l.phase == LoopPhase::Receiving,
    {
        MiningLoop { mining_address, version, last_log: None, phase: LoopPhase::Receiving }
    }

    /// Whether these are the messages that the loop begins with: the subscription, and behind it
    /// the first request.
    pub open spec fn opens(&self, counter: DevfundCounter, messages: Seq<OpeningMessage>) -> bool {
        &&& messages.len() == 2
        &&& messages[0] is Subscribe
        &&& messages[1] matches OpeningMessage::Request(request) && request.asks(
            counter,
            self.mining_address@,
            self.version@,
        )
    }

    /// What to send before anything has come, in this order.
    pub fn begin(&self, counter: &mut DevfundCounter) -> (messages: Vec<OpeningMessage>)
        requires
            old(counter).wf(),
        ensures
            final(counter).wf(),
            final(counter).next == (old(counter).next + 1) % (DEVFUND_PERIOD as int),
            self.opens(*old(counter), messages@),
    {
        let request: TemplateRequest = template_request(
            counter,
            self.mining_address.as_str(),
            self.version.as_str(),
        );
        let mut messages: Vec<OpeningMessage> = Vec::new();
        messages.push(OpeningMessage::Subscribe);
        messages.push(OpeningMessage::Request(request));
        messages
    }

    /// Whether an action is the one for an event.
    pub open spec fn acts(
        &self,
        counter: DevfundCounter,
        event: LoopEvent,
        action: LoopAction,
    ) -> bool {
        match action {
            LoopAction::Wait => match event {
                LoopEvent::Template { daa, job, at } => job is Err,
                LoopEvent::SubmitResponse(_) => true,
                LoopEvent::Other => true,
                LoopEvent::StopSignal(stop) => !stop,
                _ => false,
            },
            LoopAction::Publish => event matches LoopEvent::Template { daa, job, at } && job is Ok,
            LoopAction::Request(request) => event is NewTemplate && request.asks(
                counter,
                self.mining_address@,
                self.version@,
            ),
            LoopAction::Leave => ends_loop(event),
            LoopAction::Return => event is WorkerJoined,
        }
    }

    /// Goes on from an event.
    pub fn on_event(&mut self, counter: &mut DevfundCounter, event: &LoopEvent) -> (reply:
        LoopReply)
        requires
            old(counter).wf(),
            can_come(old(self).phase, *event),
        ensures
            final(counter).wf(),
            event is NewTemplate ==> final(counter).next == (old(counter).next + 1) % (
            DEVFUND_PERIOD as int),
            !(event is NewTemplate) ==> *final(counter) == *old(counter),
            final(self).mining_address == old(self).mining_address,
            final(self).version == old(self).version,
            final(self).last_log == last_log_at(old(self).last_log, *event),
            final(self).phase == phase_at(old(self).phase, *event),
            old(self).acts(*old(counter), *event, reply.action),
            match reply.message {
                Some(m) => message_at(old(self).last_log, *event) == Some(m@),
                None => message_at(old(self).last_log, *event) is None,
            },
    {
        match event {
            LoopEvent::Template { daa, job, at } => {
                let score: u64 = match daa {
                    Some(d) => *d,
                    None => 0,
                };
                match job {
                    Ok(_) => {
                        let due: bool = match self.last_log {
                            Some(last) => *at >= last && *at - last >= TEMPLATE_LOG_PERIOD,
                            None => true,
                        };
                        let mut message: Option<String> = None;
                        if due {
                            let mut m: String = "ios: mining on latest template DAA=".to_owned();
                            push_decimal(&mut m, score);
                            message = Some(m);
                            self.last_log = Some(*at);
                        }
                        LoopReply { action: LoopAction::Publish, message }
                    },
                    Err(e) => {
                        let mut m: String = "ios: bad template DAA=".to_owned();
                        push_decimal(&mut m, score);
                        m.append(": ");
                        m.append(e.as_str());
                        LoopReply { action: LoopAction::Wait, message: Some(m) }
                    },
                }
            },
            LoopEvent::NewTemplate => {
                let request: TemplateRequest = template_request(
                    counter,
                    self.mining_address.as_str(),
                    self.version.as_str(),
                );
                LoopReply { action: LoopAction::Request(request), message: None }
            },
            LoopEvent::SubmitResponse(reject) => LoopReply {
                action: LoopAction::Wait,
                message: Some(with_error("ios: submit block response: reject=", reject.as_str())),
            },
            LoopEvent::Other => LoopReply { action: LoopAction::Wait, message: None },
            LoopEvent::Closed => {
                self.phase = LoopPhase::Leaving;
                LoopReply {
                    action: LoopAction::Leave,
                    message: Some("ios: gRPC stream closed".to_owned()),
                }
            },
            LoopEvent::ReceiveError(e) => {
                self.phase = LoopPhase::Leaving;
                LoopReply {
                    action: LoopAction::Leave,
                    message: Some(with_error("ios: gRPC recv error: ", e.as_str())),
                }
            },
            LoopEvent::WorkerJoined => {
                self.phase = LoopPhase::Over;
                LoopReply {
                    action: LoopAction::Return,
                    message: Some("ios: mining loop ended".to_owned()),
                }
            },
            LoopEvent::StopSignal(stop) => if *stop {
                self.phase = LoopPhase::Leaving;
                LoopReply {
                    action: LoopAction::Leave,
                    message: Some("ios: stop requested".to_owned()),
                }
            } else {
                LoopReply { action: LoopAction::Wait, message: None }
            },
        }
    }
}

/// When a message about a template was logged last, behind a run of events.
pub open spec fn last_log_after(last_log: Option<u64>, events: Seq<LoopEvent>) -> Option<u64>
    decreases events.len(),
{
    if events.len() == 0 {
        last_log
    } else {
        last_log_at(last_log_after(last_log, events.drop_last()), events.last())
    }
}

/// Whether a message about a good template is logged at the `i`th of a run of events.
pub open spec fn logs_template(last_log: Option<u64>, events: Seq<LoopEvent>, i: int) -> bool {
    &&& events[i] matches LoopEvent::Template { daa, job, at }
    &&& job is Ok
    &&& log_is_due(last_log_after(last_log, events.take(i)), at)
}

/// However many templates come, two messages about them are never closer than the period.
pub proof fn law_template_log_is_throttled(
    last_log: Option<u64>,
    events: Seq<LoopEvent>,
    i: int,
    j: int,
)
    requires
        0 <= i < j < events.len(),
        logs_template(last_log, events, i),
        logs_template(last_log, events, j),
    ensures
        events[j]->at - events[i]->at >= TEMPLATE_LOG_PERIOD,
{
    lemma_last_log_grows(last_log, events, i, j);
}

/// A message that was logged holds the later ones off.
proof fn lemma_last_log_grows(last_log: Option<u64>, events: Seq<LoopEvent>, i: int, j: int)
    requires
        0 <= i < j <= events.len(),
        logs_template(last_log, events, i),
    ensures
        last_log_after(last_log, events.take(j)) is Some,
        last_log_after(last_log, events.take(j))->0 >= events[i]->at,
    decreases j,
{
    assert(events.take(j).drop_last() =~= events.take(j - 1));
    assert(events.take(j).last() == events[j - 1]);
    if j > i + 1 {
        lemma_last_log_grows(last_log, events, i, j - 1);
    }
}

/// The notifications of new templates in a run of events.
pub open spec fn notifications_in(events: Seq<LoopEvent>) -> nat
    decreases events.len(),
{
    if events.len() == 0 {
        0
    } else {
        notifications_in(events.drop_last()) + if events.last() is NewTemplate {
            1nat
        } else {
            0nat
        }
    }
}

/// The requests among a run of actions.
pub open spec fn requests_in(actions: Seq<LoopAction>) -> nat
    decreases actions.len(),
{
    if actions.len() == 0 {
        0
    } else {
        requests_in(actions.drop_last()) + if actions.last() is Request {
            1nat
        } else {
            0nat
        }
    }
}

/// The requests among opening messages.
pub open spec fn opening_requests(messages: Seq<OpeningMessage>) -> nat
    decreases messages.len(),
{
    if messages.len() == 0 {
        0
    } else {
        opening_requests(messages.drop_last()) + if messages.last() is Request {
            1nat
        } else {
            0nat
        }
    }
}

/// Whether actions are those for a run of events, and `counters` is where the counter of the
/// development fund stands before each event and behind the last.
pub open spec fn is_run(
    l: MiningLoop,
    events: Seq<LoopEvent>,
    actions: Seq<LoopAction>,
    counters: Seq<DevfundCounter>,
) -> bool {
    &&& actions.len() == events.len()
    &&& counters.len() == events.len() + 1
    &&& forall|i: int|
        0 <= i < events.len() ==> {
            &&& l.acts(counters[i], #[trigger] events[i], actions[i])
            &&& counters[i + 1].next == (if events[i] is NewTemplate {
                (counters[i].next + 1) % (DEVFUND_PERIOD as int)
            } else {
                counters[i].next as int
            })
        }
}

/// A loop that is notified of `n` new templates makes `n + 1` requests, the first when it begins,
/// and the counter of the development fund counts each of them.
pub proof fn law_requests_follow_notifications(
    l: MiningLoop,
    start: DevfundCounter,
    opening: Seq<OpeningMessage>,
    events: Seq<LoopEvent>,
    actions: Seq<LoopAction>,
    counters: Seq<DevfundCounter>,
)
    requires
        l.opens(start, opening),
        counters.len() > 0,
        counters[0].next == (start.next + 1) % (DEVFUND_PERIOD as int),
        is_run(l, events, actions, counters),
    ensures
        opening_requests(opening) + requests_in(actions) == notifications_in(events) + 1,
        counters.last().next == counter_after(
            start.next as int,
            opening_requests(opening) + requests_in(actions),
        ),
    decreases events.len(),
{
    reveal_with_fuel(opening_requests, 3);
    reveal_with_fuel(counter_after, 2);
    assert(opening_requests(opening) == 1) by {
        assert(opening.drop_last().last() == opening[0]);
        assert(opening.last() == opening[1]);
    }
    if events.len() > 0 {
        let last = events.len() - 1;
        let (e, a, c) = (events.drop_last(), actions.drop_last(), counters.drop_last());
        assert forall|i: int| 0 <= i < e.len() implies {
            &&& l.acts(c[i], #[trigger] e[i], a[i])
            &&& c[i + 1].next == (if e[i] is NewTemplate {
                (c[i].next + 1) % (DEVFUND_PERIOD as int)
            } else {
                c[i].next as int
            })
        } by {
            assert(e[i] == events[i]);
        }
        law_requests_follow_notifications(l, start, opening, e, a, c);
        assert(events.last() == events[last] && actions.last() == actions[last]);
        assert(c.last() == counters[last]);
    }
}

/// The phase behind a run of events.
pub open spec fn phase_after(events: Seq<LoopEvent>) -> LoopPhase
    decreases events.len(),
{
    if events.len() == 0 {
        LoopPhase::Receiving
    } else {
        phase_at(phase_after(events.drop_last()), events.last())
    }
}

/// Whether a loop goes through a run of events, each of which can come when it does.
pub open spec fn goes_through(events: Seq<LoopEvent>) -> bool {
    forall|i: int|
        0 <= i < events.len() ==> can_come(phase_after(events.take(i)), #[trigger] events[i])
}

/// A loop is over only behind an event that ends it and the end of the mining thread, in this
/// order and one directly behind the other; nothing before has ended it, and that it is over is
/// the last thing that it logs.
pub proof fn law_loop_end(events: Seq<LoopEvent>, last_log: Option<u64>)
    requires
        goes_through(events),
        phase_after(events) == LoopPhase::Over,
    ensures
        events.len() >= 2,
        events.last() is WorkerJoined,
        ends_loop(events[events.len() - 2]),
        forall|i: int|
            0 <= i < events.len() - 2 ==> !ends_loop(#[trigger] events[i]) && !(
            events[i] is WorkerJoined),
        message_at(last_log, events.last()) == Some("ios: mining loop ended"@),
{
    let last = events.len() - 1;
    let before = events.drop_last();
    assert(before =~= events.take(last));
    assert(can_come(phase_after(events.take(last)), events[last]));
    assert(phase_after(before) == LoopPhase::Leaving);
    let earlier = before.drop_last();
    assert(earlier =~= events.take(last - 1));
    assert(can_come(phase_after(events.take(last - 1)), events[last - 1]));
    assert(phase_after(earlier) == LoopPhase::Receiving);
    assert forall|i: int| 0 <= i < events.len() - 2 implies !ends_loop(#[trigger] events[i]) && !(
    events[i] is WorkerJoined) by {
        lemma_receiving(earlier, i);
        assert(earlier[i] == events[i]);
    }
}

/// While a loop receives, nothing has ended it.
proof fn lemma_receiving(events: Seq<LoopEvent>, i: int)
    requires
        phase_after(events) == LoopPhase::Receiving,
        0 <= i < events.len(),
    ensures
        !ends_loop(events[i]),
        !(events[i] is WorkerJoined),
    decreases events.len(),
{
    let before = events.drop_last();
    if i < before.len() {
        lemma_receiving(before, i);
        assert(before[i] == events[i]);
    }
}

/// A request is for the development fund exactly while its counter is below 200, and for the miner
/// otherwise; it names the miner's version behind `keryx-miner-ios/`, and carries no result.
pub proof fn law_request(
    request: TemplateRequest,
    counter: DevfundCounter,
    mining_address: Seq<char>,
    version: Seq<char>,
)
    requires
        request.asks(counter, mining_address, version),
    ensures
        counter.next < 200 ==> request.pay_address@
            == "keryx:qpcptntu45n0xtyq60apnwnhpkta0ujzt5sy3uk5v6nrjvxlqhamjyc882jj3"@,
        counter.next >= 200 ==> request.pay_address@ == mining_address,
        request.extra_data@.len() == 16 + version.len(),
        request.extra_data@.take(16) == "keryx-miner-ios/"@,
        request.extra_data@.skip(16) == version,
        request.inference_result@ == Seq::<char>::empty(),
{
    reveal_strlit("keryx-miner-ios/");
    assert(request.extra_data@.take(16) =~= "keryx-miner-ios/"@);
    assert(request.extra_data@.skip(16) =~= version);
    assert(request.inference_result@ =~= Seq::<char>::empty());
}

/// What follows from each event: a template is mined if a job can be made of it, a new template is
/// asked for, the loop leaves when the stream ends or fails or when it is told to stop, and
/// returns once the mining thread has ended. Everything else it waits out. The phase goes with it.
pub proof fn law_loop_actions(
    l: MiningLoop,
    counter: DevfundCounter,
    event: LoopEvent,
    action: LoopAction,
)
    requires
        can_come(l.phase, event),
        l.acts(counter, event, action),
    ensures
        event is Template ==> (event->job is Ok <==> action is Publish),
        event is Template ==> (event->job is Err <==> action is Wait),
        action is Publish ==> event is Template,
        event is NewTemplate <==> action is Request,
        event is Closed || event is ReceiveError || event == LoopEvent::StopSignal(true)
            <==> action is Leave,
        event is WorkerJoined <==> action is Return,
        event is SubmitResponse || event is Other || event == LoopEvent::StopSignal(false)
            ==> action is Wait,
        action is Leave ==> phase_at(l.phase, event) == LoopPhase::Leaving,
        action is Return ==> phase_at(l.phase, event) == LoopPhase::Over,
        !(action is Leave) && !(action is Return) ==> phase_at(l.phase, event)
            == LoopPhase::Receiving && l.phase == LoopPhase::Receiving,
{
}

/// A job that was made is reported with its score if none was reported in the two seconds before,
/// and not otherwise; the two seconds count from the last report. A template that no job could be
/// made of is reported always, with its score and the reason, and holds nothing off. A template
/// without a header counts as one of score 0.
pub proof fn law_template_messages(
    last_log: Option<u64>,
    daa: Option<u64>,
    at: u64,
    e: String,
)
    ensures
        ({
            let good = LoopEvent::Template { daa, job: Ok(()), at };
            let bad = LoopEvent::Template { daa, job: Err(e), at };
            let due = last_log is None || at >= last_log->0 + 2_000_000_000;
            let score = if daa is Some {
                daa->0 as nat
            } else {
                0
            };
            &&& message_at(last_log, good) == (if due {
                Some("ios: mining on latest template DAA="@ + decimal(score))
            } else {
                None
            })
            &&& last_log_at(last_log, good) == (if due {
                Some(at)
            } else {
                last_log
            })
            &&& message_at(last_log, bad) == Some(
                "ios: bad template DAA="@ + decimal(score) + ": "@ + e@,
            )
            &&& last_log_at(last_log, bad) == last_log
        }),
{
}

/// Templates of different scores are reported differently.
pub proof fn law_scores_are_told_apart(x: u64, y: u64, at: u64, e: String)
    requires
        x != y,
    ensures
        message_at(None, LoopEvent::Template { daa: Some(x), job: Ok(()), at }) != message_at(
            None,
            LoopEvent::Template { daa: Some(y), job: Ok(()), at },
        ),
        message_at(None, LoopEvent::Template { daa: Some(x), job: Err(e), at }) != message_at(
            None,
            LoopEvent::Template { daa: Some(y), job: Err(e), at },
        ),
{
    let good = "ios: mining on latest template DAA="@;
    let none = Seq::<char>::empty();
    law_decimals_differ(good, x as nat, y as nat, none);
    assert(good + decimal(x as nat) + none =~= good + decimal(x as nat));
    assert(good + decimal(y as nat) + none =~= good + decimal(y as nat));
    let bad = "ios: bad template DAA="@;
    let behind = ": "@ + e@;
    law_decimals_differ(bad, x as nat, y as nat, behind);
    assert(bad + decimal(x as nat) + ": "@ + e@ =~= bad + decimal(x as nat) + behind);
    assert(bad + decimal(y as nat) + ": "@ + e@ =~= bad + decimal(y as nat) + behind);
}

/// Whatever the node or the stream says is logged as it was said, behind what it is about; that the
/// stream closed, that the loop was told to stop and that it ended is logged; and nothing else is.
pub proof fn law_loop_messages(last_log: Option<u64>, text: String)
    ensures
        message_at(last_log, LoopEvent::SubmitResponse(text)) == Some(
            "ios: submit block response: reject="@ + text@,
        ),
        message_at(last_log, LoopEvent::ReceiveError(text)) == Some(
            "ios: gRPC recv error: "@ + text@,
        ),
        message_at(last_log, LoopEvent::Closed) == Some("ios: gRPC stream closed"@),
        message_at(last_log, LoopEvent::StopSignal(true)) == Some("ios: stop requested"@),
        message_at(last_log, LoopEvent::WorkerJoined) == Some("ios: mining loop ended"@),
        message_at(last_log, LoopEvent::StopSignal(false)) is None,
        message_at(last_log, LoopEvent::NewTemplate) is None,
        message_at(last_log, LoopEvent::Other) is None,
{
}

} // verus!
