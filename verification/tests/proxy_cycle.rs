use dns_proxy::error::DnsError;
use dns_proxy::header::Header;
use dns_proxy::name::Name;
use dns_proxy::packet::DNSPacket;
use dns_proxy::parser::parse_packet;
use dns_proxy::policy::TransformPolicy;
use dns_proxy::proxy::{
    examine_response, on_query, on_response, reply_to_client, step, Action, CorrelationContext,
    Endpoint, Event, ProxyConfig, ProxyState, Step, Verdict,
};
use dns_proxy::question::Question;
use dns_proxy::record::Record;

const CLIENT: Endpoint = Endpoint { ip: 0x0A00_0005, port: 40000 };
const UPSTREAM: Endpoint = Endpoint { ip: 0x0808_0808, port: 53 };
const STRANGER: Endpoint = Endpoint { ip: 0x0102_0304, port: 5353 };

fn name(labels: &[&str]) -> Name {
    Name { labels: labels.iter().map(|l| l.as_bytes().to_vec()).collect() }
}

fn query(id: u16, host: &[&str]) -> Vec<u8> {
    DNSPacket::new(
        Header { id, rd: 1, qd_count: 1, ..Header::default() },
        vec![Question { name: name(host), ty: 1, class: 1 }],
        vec![],
        vec![],
        vec![],
    )
    .serialize()
    .unwrap()
}

fn reply_packet(id: u16, host: &[&str], ip: [u8; 4]) -> DNSPacket {
    DNSPacket::new(
        Header { id, qr: 1, rd: 1, ra: 1, qd_count: 1, an_count: 1, ..Header::default() },
        vec![Question { name: name(host), ty: 1, class: 1 }],
        vec![Record {
            name: name(host),
            ty: 1,
            class: 1,
            ttl: 120,
            rdlength: 4,
            rdata: ip.to_vec(),
        }],
        vec![],
        vec![],
    )
}

fn reply(id: u16, host: &[&str], ip: [u8; 4]) -> Vec<u8> {
    reply_packet(id, host, ip).serialize().unwrap()
}

fn config(policy: TransformPolicy) -> ProxyConfig {
    ProxyConfig { timeout: 5000, policy }
}

fn google_policy() -> TransformPolicy {
    TransformPolicy::RewriteAddress { target: b"google.com".to_vec(), address: [1, 3, 3, 7] }
}

fn context(id: u16, deadline: u64) -> CorrelationContext {
    CorrelationContext { id, client: CLIENT, deadline }
}

fn datagram(bytes: Vec<u8>, source: Endpoint, now: u64) -> Event {
    Event::Datagram { bytes, source, now }
}

fn idle(report: Option<DnsError>) -> Step {
    Step { state: ProxyState::AwaitingQuery, action: Action::Receive, report }
}

fn waiting(ctx: CorrelationContext, report: Option<DnsError>) -> Step {
    Step {
        state: ProxyState::AwaitingResponse { context: ctx },
        action: Action::ReceiveBefore { deadline: ctx.deadline },
        report,
    }
}

#[test]
fn end_to_end_rewrites_the_answer_and_keeps_the_id() {
    let cfg = config(google_policy());
    let q = query(0x1234, &["google", "com"]);

    let s1 = step(&cfg, ProxyState::AwaitingQuery, datagram(q.clone(), CLIENT, 1000));
    let ctx = context(0x1234, 6000);
    assert_eq!(
        s1,
        Step {
            state: ProxyState::Forwarding { context: ctx },
            action: Action::SendUpstream { bytes: q },
            report: None,
        }
    );

    let s2 = step(&cfg, s1.state, Event::SendFinished { ok: true });
    assert_eq!(s2, waiting(ctx, None));

    let s3 = step(
        &cfg,
        s2.state,
        datagram(reply(0x1234, &["google", "com"], [142, 250, 1, 1]), UPSTREAM, 1040),
    );
    assert_eq!(s3.state, ProxyState::Replying);
    assert_eq!(s3.report, None);
    let (bytes, client) = match s3.action {
        Action::SendToClient { bytes, client } => (bytes, client),
        other => panic!("no reply: {:?}", other),
    };
    assert_eq!(client, CLIENT);
    let sent = parse_packet(&bytes).unwrap();
    assert_eq!(sent.header.id, 0x1234);
    assert_eq!(sent.answers.len(), 1);
    assert_eq!(sent.answers[0].rdata, vec![1, 3, 3, 7]);
    assert_eq!(sent, reply_packet(0x1234, &["google", "com"], [1, 3, 3, 7]));

    let s4 = step(&cfg, s3.state, Event::SendFinished { ok: true });
    assert_eq!(s4, idle(None));
}

#[test]
fn no_op_policy_forwards_the_response_unchanged() {
    let cfg = config(TransformPolicy::NoOp);
    let r = reply(7, &["google", "com"], [9, 9, 9, 9]);
    let s = step(
        &cfg,
        ProxyState::AwaitingResponse { context: context(7, 100) },
        datagram(r.clone(), UPSTREAM, 50),
    );
    assert_eq!(
        s,
        Step {
            state: ProxyState::Replying,
            action: Action::SendToClient { bytes: r, client: CLIENT },
            report: None,
        }
    );
}

#[test]
fn other_hosts_pass_the_rewrite_policy_unchanged() {
    let cfg = config(google_policy());
    let r = reply(7, &["example", "org"], [9, 9, 9, 9]);
    let s = step(
        &cfg,
        ProxyState::AwaitingResponse { context: context(7, 100) },
        datagram(r.clone(), UPSTREAM, 50),
    );
    assert_eq!(s.action, Action::SendToClient { bytes: r, client: CLIENT });
}

#[test]
fn compressed_response_is_answered_uncompressed() {
    let mut r = vec![0, 7, 0x81, 0x80, 0, 1, 0, 1, 0, 0, 0, 0];
    r.extend_from_slice(b"\x06google\x03com\x00\x00\x01\x00\x01");
    r.extend_from_slice(&[0xC0, 12, 0, 1, 0, 1, 0, 0, 0, 120, 0, 4, 8, 8, 8, 8]);
    let s = on_response(&google_policy(), context(7, 100), &r, 99);
    assert_eq!(
        s.action,
        Action::SendToClient { bytes: reply(7, &["google", "com"], [1, 3, 3, 7]), client: CLIENT }
    );
}

#[test]
fn mismatched_id_is_discarded_and_waiting_goes_on() {
    let cfg = config(TransformPolicy::NoOp);
    let ctx = context(0x1234, 6000);
    let s = step(
        &cfg,
        ProxyState::AwaitingResponse { context: ctx },
        datagram(reply(0x1235, &["google", "com"], [1, 1, 1, 1]), UPSTREAM, 2000),
    );
    assert_eq!(s, waiting(ctx, None));
    // the right one still completes the cycle afterwards
    let s2 = step(
        &cfg,
        s.state,
        datagram(reply(0x1234, &["google", "com"], [1, 1, 1, 1]), UPSTREAM, 2001),
    );
    assert_eq!(s2.state, ProxyState::Replying);
}

#[test]
fn matching_response_one_tick_before_the_deadline_completes() {
    let cfg = config(TransformPolicy::NoOp);
    let ctx = context(3, 6000);
    let s = step(
        &cfg,
        ProxyState::AwaitingResponse { context: ctx },
        datagram(reply(3, &["a"], [1, 1, 1, 1]), UPSTREAM, 5999),
    );
    assert_eq!(s.state, ProxyState::Replying);
    assert_eq!(s.report, None);
}

#[test]
fn matching_response_one_tick_after_the_deadline_does_not() {
    let cfg = config(TransformPolicy::NoOp);
    let ctx = context(3, 6000);
    let s = step(
        &cfg,
        ProxyState::AwaitingResponse { context: ctx },
        datagram(reply(3, &["a"], [1, 1, 1, 1]), UPSTREAM, 6001),
    );
    assert_eq!(s, idle(Some(DnsError::UpstreamTimeout)));
}

#[test]
fn matching_response_at_the_deadline_is_too_late() {
    let s = on_response(
        &TransformPolicy::NoOp,
        context(3, 6000),
        &reply(3, &["a"], [1, 1, 1, 1]),
        6000,
    );
    assert_eq!(s, idle(Some(DnsError::UpstreamTimeout)));
}

#[test]
fn deadline_without_a_datagram_ends_the_cycle() {
    let cfg = config(TransformPolicy::NoOp);
    let ctx = context(3, 6000);
    let state = ProxyState::AwaitingResponse { context: ctx };
    assert_eq!(
        step(&cfg, state, Event::DeadlineReached { now: 6000 }),
        idle(Some(DnsError::UpstreamTimeout))
    );
    assert_eq!(
        step(&cfg, state, Event::DeadlineReached { now: 9000 }),
        idle(Some(DnsError::UpstreamTimeout))
    );
    assert_eq!(step(&cfg, state, Event::DeadlineReached { now: 5999 }), waiting(ctx, None));
}

#[test]
fn malformed_response_is_discarded_without_ending_the_wait() {
    let cfg = config(TransformPolicy::NoOp);
    let ctx = context(3, 6000);
    let state = ProxyState::AwaitingResponse { context: ctx };
    assert_eq!(
        step(&cfg, state, datagram(vec![1, 2, 3], UPSTREAM, 10)),
        waiting(ctx, Some(DnsError::OutOfBounds { offset: 0, len: 3 }))
    );
    let mut cut = reply(3, &["a"], [1, 1, 1, 1]);
    cut.pop();
    assert_eq!(
        step(&cfg, state, datagram(cut, UPSTREAM, 10)),
        waiting(ctx, Some(DnsError::TruncatedBuffer))
    );
}

#[test]
fn response_source_is_not_looked_at() {
    let cfg = config(TransformPolicy::NoOp);
    let s = step(
        &cfg,
        ProxyState::AwaitingResponse { context: context(3, 6000) },
        datagram(reply(3, &["a"], [1, 1, 1, 1]), STRANGER, 10),
    );
    assert_eq!(s.state, ProxyState::Replying);
}

#[test]
fn malformed_query_is_not_forwarded() {
    let cfg = config(TransformPolicy::NoOp);
    assert_eq!(
        step(&cfg, ProxyState::AwaitingQuery, datagram(vec![0; 5], CLIENT, 0)),
        idle(Some(DnsError::OutOfBounds { offset: 0, len: 5 }))
    );
    let mut looping = vec![0, 1, 0, 0, 0, 1, 0, 0, 0, 0, 0, 0];
    looping.extend_from_slice(&[0xC0, 12, 0, 1, 0, 1]);
    assert_eq!(
        step(&cfg, ProxyState::AwaitingQuery, datagram(looping, CLIENT, 0)),
        idle(Some(DnsError::CompressionLoop))
    );
    let mut trailing = query(1, &["a"]);
    trailing.push(0);
    assert_eq!(on_query(5000, trailing, CLIENT, 0), idle(Some(DnsError::MalformedCounts)));
}

#[test]
fn query_opens_a_cycle_with_its_id_client_and_deadline() {
    let q = query(0xABCD, &["example", "com"]);
    let s = on_query(250, q.clone(), STRANGER, 1_000_000);
    assert_eq!(
        s,
        Step {
            state: ProxyState::Forwarding {
                context: CorrelationContext { id: 0xABCD, client: STRANGER, deadline: 1_000_250 },
            },
            action: Action::SendUpstream { bytes: q },
            report: None,
        }
    );
}

#[test]
fn deadline_stops_at_the_end_of_the_clock() {
    let s = on_query(10, query(1, &["a"]), CLIENT, u64::MAX - 3);
    match s.state {
        ProxyState::Forwarding { context } => assert_eq!(context.deadline, u64::MAX),
        other => panic!("not forwarding: {:?}", other),
    }
    let t = on_query(3, query(1, &["a"]), CLIENT, u64::MAX - 3);
    match t.state {
        ProxyState::Forwarding { context } => assert_eq!(context.deadline, u64::MAX),
        other => panic!("not forwarding: {:?}", other),
    }
}

#[test]
fn failed_send_upstream_ends_the_cycle() {
    let cfg = config(TransformPolicy::NoOp);
    let s = step(
        &cfg,
        ProxyState::Forwarding { context: context(1, 10) },
        Event::SendFinished { ok: false },
    );
    assert_eq!(s, idle(Some(DnsError::TransportError)));
}

#[test]
fn failed_reply_ends_the_cycle() {
    let cfg = config(TransformPolicy::NoOp);
    assert_eq!(
        step(&cfg, ProxyState::Replying, Event::SendFinished { ok: false }),
        idle(Some(DnsError::TransportError))
    );
    assert_eq!(step(&cfg, ProxyState::Replying, Event::SendFinished { ok: true }), idle(None));
}

#[test]
fn unexpected_events_end_the_cycle() {
    let cfg = config(TransformPolicy::NoOp);
    let ctx = context(1, 10);
    assert_eq!(step(&cfg, ProxyState::AwaitingQuery, Event::SendFinished { ok: true }), idle(None));
    assert_eq!(
        step(&cfg, ProxyState::AwaitingQuery, Event::DeadlineReached { now: 1 }),
        idle(None)
    );
    assert_eq!(
        step(&cfg, ProxyState::Forwarding { context: ctx }, Event::DeadlineReached { now: 1 }),
        idle(None)
    );
    assert_eq!(
        step(&cfg, ProxyState::Forwarding { context: ctx }, datagram(query(1, &["a"]), CLIENT, 1)),
        idle(None)
    );
    assert_eq!(
        step(
            &cfg,
            ProxyState::AwaitingResponse { context: ctx },
            Event::SendFinished { ok: true }
        ),
        idle(None)
    );
    assert_eq!(step(&cfg, ProxyState::Replying, Event::DeadlineReached { now: 1 }), idle(None));
    assert_eq!(
        step(&cfg, ProxyState::Replying, datagram(query(1, &["a"]), CLIENT, 1)),
        idle(None)
    );
}

#[test]
fn verdicts_on_candidate_responses() {
    let ctx = context(3, 6000);
    let good = reply(3, &["a"], [1, 1, 1, 1]);
    assert_eq!(
        examine_response(ctx, &good, 5999),
        Verdict::Matched(reply_packet(3, &["a"], [1, 1, 1, 1]))
    );
    assert_eq!(examine_response(ctx, &good, 6000), Verdict::TimedOut);
    assert_eq!(examine_response(ctx, &[1, 2], 6000), Verdict::TimedOut);
    assert_eq!(examine_response(ctx, &reply(4, &["a"], [1, 1, 1, 1]), 0), Verdict::Unmatched);
    assert_eq!(
        examine_response(ctx, &good[..good.len() - 2], 0),
        Verdict::Unparsable(DnsError::TruncatedBuffer)
    );
}

#[test]
fn a_policy_of_the_caller_can_stand_between_match_and_reply() {
    let ctx = context(3, 6000);
    let mut seen: Vec<DNSPacket> = Vec::new();
    let mut recording = |p: DNSPacket| {
        seen.push(p.clone());
        p
    };
    let response = match examine_response(ctx, &reply(3, &["a"], [1, 1, 1, 1]), 10) {
        Verdict::Matched(p) => recording(p),
        other => panic!("not matched: {:?}", other),
    };
    assert!(response.is_well_formed());
    let s = reply_to_client(ctx, &response);
    assert_eq!(
        s,
        Step {
            state: ProxyState::Replying,
            action: Action::SendToClient { bytes: reply(3, &["a"], [1, 1, 1, 1]), client: CLIENT },
            report: None,
        }
    );
    assert_eq!(seen, vec![reply_packet(3, &["a"], [1, 1, 1, 1])]);
}

#[test]
fn reply_with_wrong_counts_is_not_sent() {
    let mut p = reply_packet(3, &["a"], [1, 1, 1, 1]);
    p.answers.clear();
    assert!(p.is_well_formed());
    assert_eq!(reply_to_client(context(3, 6000), &p), idle(Some(DnsError::MalformedCounts)));
}
