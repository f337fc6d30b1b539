//! One query/response cycle of the proxy as a state machine. The caller owns
//! the transport and the clock: it performs each action and hands back what
//! happened as the next event.

use vstd::prelude::*;
use crate::error::DnsError;
use crate::packet::{
    lemma_parsed_counts_match, spec_encode_packet, spec_parse_packet, DNSPacket, PacketView,
};
use crate::parser::parse_packet;
use crate::policy::{lemma_policy_keeps_lengths, spec_apply_policy, PolicyView, TransformPolicy};

verus! {

/// Where a datagram came from or goes to.
#[derive(Clone, Copy, Debug, PartialEq, Eq, Structural)]
pub struct Endpoint {
    pub ip: u32,
    pub port: u16,
}

/// What one cycle remembers of its query: the identifier to match, the
/// client to answer, and the time after which no response counts.
#[derive(Clone, Copy, Debug, PartialEq, Eq, Structural)]
pub struct CorrelationContext {
    pub id: u16,
    pub client: Endpoint,
    pub deadline: u64,
}

/// The states of a cycle.
#[derive(Clone, Copy, Debug, PartialEq, Eq, Structural)]
pub enum ProxyState {
    /// No cycle runs; the next datagram is taken as a query.
    AwaitingQuery,
    /// The query is being sent to the upstream resolver.
    Forwarding { context: CorrelationContext },
    /// The query was sent; datagrams are taken as candidate responses.
    AwaitingResponse { context: CorrelationContext },
    /// The reply is being sent to the client.
    Replying,
}

/// What the transport or the clock reports.
#[derive(Clone, Debug, PartialEq, Eq)]
pub enum Event {
    /// A datagram arrived from `source` at time `now`.
    Datagram { bytes: Vec<u8>, source: Endpoint, now: u64 },
    /// The send that the last action asked for ended, well or not.
    SendFinished { ok: bool },
    /// Waiting for a datagram ended at time `now` without one.
    DeadlineReached { now: u64 },
}

/// What the caller is to do next.
#[derive(Clone, Debug, PartialEq, Eq)]
pub enum Action {
    /// Wait for the next datagram, however long it takes.
    Receive,
    /// Wait for the next datagram, but not beyond `deadline`.
    ReceiveBefore { deadline: u64 },
    /// Send `bytes` to the upstream resolver.
    SendUpstream { bytes: Vec<u8> },
    /// Send `bytes` to `client`.
    SendToClient { bytes: Vec<u8>, client: Endpoint },
}

/// The settings of the proxy: how long a cycle waits for its response, in
/// the unit of the clock, and what it does to a matched response.
#[derive(Clone, Debug, PartialEq, Eq)]
pub struct ProxyConfig {
    pub timeout: u64,
    pub policy: TransformPolicy,
}

/// The result of one step: the state the cycle is in now, what the caller is
/// to do, and what went wrong in this step, if anything did.
#[derive(Clone, Debug, PartialEq, Eq)]
pub struct Step {
    pub state: ProxyState,
    pub action: Action,
    pub report: Option<DnsError>,
}

/// What a datagram is to the cycle that waits for its response.
#[derive(Clone, Debug, PartialEq, Eq)]
pub enum Verdict {
    /// It came at the deadline or after it.
    TimedOut,
    /// It does not parse.
    Unparsable(DnsError),
    /// It parses but carries another identifier than the query.
    Unmatched,
    /// It is the response to the query.
    Matched(DNSPacket),
}

/// A verdict as a mathematical value.
pub enum VerdictView {
    TimedOut,
    Unparsable(DnsError),
    Unmatched,
    Matched(PacketView),
}

impl View for Verdict {
    type V = VerdictView;

    open spec fn view(&self) -> VerdictView {
        match self {
            Verdict::TimedOut => VerdictView::TimedOut,
            Verdict::Unparsable(e) => VerdictView::Unparsable(*e),
            Verdict::Unmatched => VerdictView::Unmatched,
            Verdict::Matched(packet) => VerdictView::Matched(packet@),
        }
    }
}

/// An event as a mathematical value.
pub enum EventView {
    Datagram { bytes: Seq<u8>, source: Endpoint, now: u64 },
    SendFinished { ok: bool },
    DeadlineReached { now: u64 },
}

/// An action as a mathematical value.
pub enum ActionView {
    Receive,
    ReceiveBefore { deadline: u64 },
    SendUpstream { bytes: Seq<u8> },
    SendToClient { bytes: Seq<u8>, client: Endpoint },
}

/// The settings as a mathematical value.
pub struct ConfigView {
    pub timeout: u64,
    pub policy: PolicyView,
}

/// A step as a mathematical value.
pub struct StepView {
    pub state: ProxyState,
    pub action: ActionView,
    pub report: Option<DnsError>,
}

impl View for Event {
    type V = EventView;

    open spec fn view(&self) -> EventView {
        match self {
            Event::Datagram { bytes, source, now } => EventView::Datagram {
                bytes: bytes@,
                source: *source,
                now: *now,
            },
            Event::SendFinished { ok } => EventView::SendFinished { ok: *ok },
            Event::DeadlineReached { now } => EventView::DeadlineReached { now: *now },
        }
    }
}

impl View for Action {
    type V = ActionView;

    open spec fn view(&self) -> ActionView {
        match self {
            Action::Receive => ActionView::Receive,
            Action::ReceiveBefore { deadline } => ActionView::ReceiveBefore {
                deadline: *deadline,
            },
            Action::SendUpstream { bytes } => ActionView::SendUpstream { bytes: bytes@ },
            Action::SendToClient { bytes, client } => ActionView::SendToClient {
                bytes: bytes@,
                client: *client,
            },
        }
    }
}

impl View for ProxyConfig {
    type V = ConfigView;

    open spec fn view(&self) -> ConfigView {
        ConfigView { timeout: self.timeout, policy: self.policy@ }
    }
}

impl View for Step {
    type V = StepView;

    open spec fn view(&self) -> StepView {
        StepView { state: self.state, action: self.action@, report: self.report }
    }
}

/// The time after which a cycle begun at `now` takes no response: `timeout`
/// later, or the last moment the clock can show.
pub open spec fn spec_deadline(now: u64, timeout: u64) -> u64 {
    if now + timeout > u64::MAX {
        u64::MAX
    } else {
        (now + timeout) as u64
    }
}

/// The step that ends a cycle: back to awaiting a query, with `report`.
pub open spec fn spec_end_cycle(report: Option<DnsError>) -> StepView {
    StepView { state: ProxyState::AwaitingQuery, action: ActionView::Receive, report }
}

/// The step that goes on waiting for the response, with `report`.
pub open spec fn spec_keep_waiting(context: CorrelationContext, report: Option<DnsError>)
    -> StepView {
    StepView {
        state: ProxyState::AwaitingResponse { context },
        action: ActionView::ReceiveBefore { deadline: context.deadline },
        report,
    }
}

/// What a datagram does while a query is awaited: one that parses opens a
/// cycle and is sent upstream byte for byte; one that does not is dropped.
pub open spec fn spec_on_query(timeout: u64, bytes: Seq<u8>, source: Endpoint, now: u64)
    -> StepView {
    match spec_parse_packet(bytes, 0) {
        Err(e) => spec_end_cycle(Some(e)),
        Ok(query) => StepView {
            state: ProxyState::Forwarding {
                context: CorrelationContext {
                    id: query.header.id,
                    client: source,
                    deadline: spec_deadline(now, timeout),
                },
            },
            action: ActionView::SendUpstream { bytes },
            report: None,
        },
    }
}

/// What a datagram that arrives at `now` is to the cycle of `context`. At
/// the deadline and after it nothing counts any more. Before it, a datagram
/// is the response where it parses and carries the identifier of the query.
/// Where it came from is not looked at.
pub open spec fn spec_examine_response(context: CorrelationContext, bytes: Seq<u8>, now: u64)
    -> VerdictView {
    if now >= context.deadline {
        VerdictView::TimedOut
    } else {
        match spec_parse_packet(bytes, 0) {
            Err(e) => VerdictView::Unparsable(e),
            Ok(response) => if response.header.id != context.id {
                VerdictView::Unmatched
            } else {
                VerdictView::Matched(response)
            },
        }
    }
}

/// The step that answers the client of `context` with `reply`: its bytes go
/// to the client, unless its header counts disagree with its sections.
pub open spec fn spec_reply(context: CorrelationContext, reply: PacketView) -> StepView {
    if reply.counts_match() {
        StepView {
            state: ProxyState::Replying,
            action: ActionView::SendToClient {
                bytes: spec_encode_packet(reply),
                client: context.client,
            },
            report: None,
        }
    } else {
        spec_end_cycle(Some(DnsError::MalformedCounts))
    }
}

/// What a datagram does while the response is awaited. At or after the
/// deadline it ends the cycle with `UpstreamTimeout`, whatever it holds.
/// Before the deadline: one that does not parse, or that carries another
/// identifier than the query, is dropped and waiting goes on; one that
/// carries the identifier of the query goes through the policy and is sent
/// to the client.
pub open spec fn spec_on_response(
    policy: PolicyView,
    context: CorrelationContext,
    bytes: Seq<u8>,
    now: u64,
) -> StepView {
    match spec_examine_response(context, bytes, now) {
        VerdictView::TimedOut => spec_end_cycle(Some(DnsError::UpstreamTimeout)),
        VerdictView::Unparsable(e) => spec_keep_waiting(context, Some(e)),
        VerdictView::Unmatched => spec_keep_waiting(context, None),
        VerdictView::Matched(response) => spec_reply(
            context,
            spec_apply_policy(policy, response),
        ),
    }
}

/// The step that `event` causes in `state`. An event that the state does not
/// expect ends the cycle.
pub open spec fn spec_step(config: ConfigView, state: ProxyState, event: EventView) -> StepView {
    match state {
        ProxyState::AwaitingQuery => match event {
            EventView::Datagram { bytes, source, now } => spec_on_query(
                config.timeout,
                bytes,
                source,
                now,
            ),
            _ => spec_end_cycle(None),
        },
        ProxyState::Forwarding { context } => match event {
            EventView::SendFinished { ok } => if ok {
                spec_keep_waiting(context, None)
            } else {
                spec_end_cycle(Some(DnsError::TransportError))
            },
            _ => spec_end_cycle(None),
        },
        ProxyState::AwaitingResponse { context } => match event {
            EventView::Datagram { bytes, source, now } => spec_on_response(
                config.policy,
                context,
                bytes,
                now,
            ),
            EventView::DeadlineReached { now } => if now >= context.deadline {
                spec_end_cycle(Some(DnsError::UpstreamTimeout))
            } else {
                spec_keep_waiting(context, None)
            },
            _ => spec_end_cycle(None),
        },
        ProxyState::Replying => match event {
            EventView::SendFinished { ok } => if ok {
                spec_end_cycle(None)
            } else {
                spec_end_cycle(Some(DnsError::TransportError))
            },
            _ => spec_end_cycle(None),
        },
    }
}

/// Ends the cycle with `report`.
fn end_cycle(report: Option<DnsError>) -> (next: Step)
    ensures
        next@ == spec_end_cycle(report),
{
    Step { state: ProxyState::AwaitingQuery, action: Action::Receive, report }
}

/// Goes on waiting for the response, with `report`.
fn keep_waiting(context: CorrelationContext, report: Option<DnsError>) -> (next: Step)
    ensures
        next@ == spec_keep_waiting(context, report),
{
    Step {
        state: ProxyState::AwaitingResponse { context },
        action: Action::ReceiveBefore { deadline: context.deadline },
        report,
    }
}

/// Takes a datagram as a query: one that parses opens a cycle with its
/// identifier, its sender and the deadline, and is handed on unchanged to be
/// sent upstream; one that does not parse is dropped with its error.
pub fn on_query(timeout: u64, bytes: Vec<u8>, source: Endpoint, now: u64) -> (next: Step)
    ensures
        next@ == spec_on_query(timeout, bytes@, source, now),
{
    match parse_packet(bytes.as_slice()) {
        Err(e) => end_cycle(Some(e)),
        Ok(query) => {
            let deadline: u64 = if timeout > u64::MAX - now {
                u64::MAX
            } else {
                now + timeout
            };
            Step {
                state: ProxyState::Forwarding {
                    context: CorrelationContext { id: query.header.id, client: source, deadline },
                },
                action: Action::SendUpstream { bytes },
                report: None,
            }
        },
    }
}

/// Judges a datagram that arrived at `now` while the cycle of `context`
/// waits for its response. A response that is matched is well formed and
/// its header counts are the lengths of its sections.
pub fn examine_response(context: CorrelationContext, bytes: &[u8], now: u64) -> (verdict: Verdict)
    ensures
        verdict@ == spec_examine_response(context, bytes@, now),
        verdict matches Verdict::Matched(response) ==> response.wf()
            && response@.counts_match(),
{
    if now >= context.deadline {
        return Verdict::TimedOut;
    }
    match parse_packet(bytes) {
        Err(e) => Verdict::Unparsable(e),
        Ok(response) => if response.header.id != context.id {
            Verdict::Unmatched
        } else {
            Verdict::Matched(response)
        },
    }
}

/// Answers the client of `context` with `reply`, which is what some policy
/// made of the matched response. A reply whose header counts disagree with
/// its sections is not sent: the cycle ends with `MalformedCounts`.
pub fn reply_to_client(context: CorrelationContext, reply: &DNSPacket) -> (next: Step)
    requires
        reply.wf(),
    ensures
        next@ == spec_reply(context, reply@),
{
    match reply.serialize() {
        Ok(bytes) => Step {
            state: ProxyState::Replying,
            action: Action::SendToClient { bytes, client: context.client },
            report: None,
        },
        Err(e) => end_cycle(Some(e)),
    }
}

/// Takes a datagram as a candidate response of the cycle that `context`
/// describes, and answers the client with what `policy` makes of the
/// response where it is one.
pub fn on_response(
    policy: &TransformPolicy,
    context: CorrelationContext,
    bytes: &[u8],
    now: u64,
) -> (next: Step)
    ensures
        next@ == spec_on_response(policy@, context, bytes@, now),
{
    match examine_response(context, bytes, now) {
        Verdict::TimedOut => end_cycle(Some(DnsError::UpstreamTimeout)),
        Verdict::Unparsable(e) => keep_waiting(context, Some(e)),
        Verdict::Unmatched => keep_waiting(context, None),
        Verdict::Matched(response) => {
            let reply = policy.apply(response);
            reply_to_client(context, &reply)
        },
    }
}

/// Makes the step that `event` causes in `state`, and tells the caller what
/// to do next.
pub fn step(config: &ProxyConfig, state: ProxyState, event: Event) -> (next: Step)
    ensures
        next@ == spec_step(config@, state, event@),
{
    match state {
        ProxyState::AwaitingQuery => match event {
            Event::Datagram { bytes, source, now } => on_query(config.timeout, bytes, source, now),
            _ => end_cycle(None),
        },
        ProxyState::Forwarding { context } => match event {
            Event::SendFinished { ok } => if ok {
                keep_waiting(context, None)
            } else {
                end_cycle(Some(DnsError::TransportError))
            },
            _ => end_cycle(None),
        },
        ProxyState::AwaitingResponse { context } => match event {
            Event::Datagram { bytes, source, now } => on_response(
                &config.policy,
                context,
                bytes.as_slice(),
                now,
            ),
            Event::DeadlineReached { now } => if now >= context.deadline {
                end_cycle(Some(DnsError::UpstreamTimeout))
            } else {
                keep_waiting(context, None)
            },
            _ => end_cycle(None),
        },
        ProxyState::Replying => match event {
            Event::SendFinished { ok } => if ok {
                end_cycle(None)
            } else {
                end_cycle(Some(DnsError::TransportError))
            },
            _ => end_cycle(None),
        },
    }
}

/// A datagram that parses but carries another identifier than the query
/// does not complete the cycle: before the deadline the cycle stays as it
/// is and goes on waiting.
pub proof fn lemma_other_id_keeps_waiting(
    config: ConfigView,
    context: CorrelationContext,
    bytes: Seq<u8>,
    source: Endpoint,
    now: u64,
)
    requires
        now < context.deadline,
        spec_parse_packet(bytes, 0) is Ok,
        spec_parse_packet(bytes, 0)->Ok_0.header.id != context.id,
    ensures
        spec_step(
            config,
            ProxyState::AwaitingResponse { context },
            EventView::Datagram { bytes, source, now },
        ) == spec_keep_waiting(context, None),
{
}

/// A datagram that parses and carries the identifier of the query, taken
/// before the deadline, completes the cycle: the reply goes to the client
/// that asked, holds what the policy makes of the response, and carries the
/// header of the response, its identifier with it.
pub proof fn lemma_matching_id_completes(
    config: ConfigView,
    context: CorrelationContext,
    bytes: Seq<u8>,
    source: Endpoint,
    now: u64,
)
    requires
        now < context.deadline,
        spec_parse_packet(bytes, 0) is Ok,
        spec_parse_packet(bytes, 0)->Ok_0.header.id == context.id,
    ensures
        ({
            let next = spec_step(
                config,
                ProxyState::AwaitingResponse { context },
                EventView::Datagram { bytes, source, now },
            );
            let reply = spec_apply_policy(config.policy, spec_parse_packet(bytes, 0)->Ok_0);
            &&& next.state == ProxyState::Replying
            &&& next.action == ActionView::SendToClient {
                bytes: spec_encode_packet(reply),
                client: context.client,
            }
            &&& reply.header.id == context.id
        }),
{
    let response = spec_parse_packet(bytes, 0)->Ok_0;
    lemma_parsed_counts_match(bytes, 0);
    lemma_policy_keeps_lengths(config.policy, response);
}

/// At the deadline and after it nothing completes the cycle: whatever
/// arrives, the cycle ends with `UpstreamTimeout` and no reply is sent.
pub proof fn lemma_late_response_times_out(
    config: ConfigView,
    context: CorrelationContext,
    bytes: Seq<u8>,
    source: Endpoint,
    now: u64,
)
    requires
        now >= context.deadline,
    ensures
        spec_step(
            config,
            ProxyState::AwaitingResponse { context },
            EventView::Datagram { bytes, source, now },
        ) == spec_end_cycle(Some(DnsError::UpstreamTimeout)),
{
}

/// A step that reports an error never leads to a send: the cycle either
/// ends, back to awaiting a query, or goes on waiting for its response.
pub proof fn lemma_error_never_sends(config: ConfigView, state: ProxyState, event: EventView)
    requires
        spec_step(config, state, event).report is Some,
    ensures
        ({
            let next = spec_step(config, state, event);
            ||| next.state == ProxyState::AwaitingQuery && next.action == ActionView::Receive
            ||| state is AwaitingResponse && next.state == state && next.action
                == ActionView::ReceiveBefore { deadline: state->AwaitingResponse_context.deadline }
        }),
{
}

} // verus!
