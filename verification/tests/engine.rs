use nbreq_http::backend::{Effect, NativeHttpBackend};
use nbreq_http::config::ConnectionLimits;
use nbreq_http::failure::{NativeFailure, NativeFailureKind};
use nbreq_http::feed::UploadFeed;
use nbreq_http::lookup::LookupOutcome;
use nbreq_http::pending::Completion;
use nbreq_http::pool::TlsPhase;
use nbreq_http::resolver::{
    AddressFamily, AddressOrder, BackendResolveCompletion, CacheMode, LookupEngine, LookupQuery,
    ResolveCompletion,
};
use nbreq_http::step::{EventKind, NativeEvent, SocketReport};
use nbreq_http::stream::{ResponseSink, SinkEnd, StreamRead};
use nbreq_http::tcp::{TcpConnectTarget, TcpEffect, TcpEngine, TcpLookup, TcpPurpose};
use nbreq_http::turn::{NativeEngines, ResolverResult};
use nbreq_http::types::{
    Error, ErrorKind, HttpLimits, LimitKind, Request, Response, TimeoutKind, TlsFailure,
    TransportStage, UploadFraming,
};
use nbreq_http::upload::UploadBody;
use std::collections::VecDeque;

const LIMITS: HttpLimits = HttpLimits {
    body_bytes: 1024,
    header_bytes: 1024,
    header_count: 16,
};

const CONNECTIONS: ConnectionLimits = ConnectionLimits {
    global: 4,
    per_origin: 2,
    idle_global: 4,
    idle_per_origin: 2,
    idle_timeout: 1_000,
};

fn engine(connections: ConnectionLimits) -> NativeHttpBackend {
    NativeHttpBackend::new(LIMITS, false, connections).expect("the limits are valid")
}

fn effects(engine: &mut NativeHttpBackend) -> Vec<Effect> {
    engine.take_effects().items
}

fn done(engine: &mut NativeHttpBackend) -> Vec<(u64, Completion)> {
    engine
        .take_completions()
        .items
        .into_iter()
        .map(|entry| (entry.id, entry.completion))
        .collect()
}

fn report(slot: u64) -> SocketReport {
    SocketReport {
        slot,
        tls: None,
        room: 64,
        outbound_empty: true,
    }
}

fn event(slot: u64, kind: EventKind) -> NativeEvent {
    NativeEvent {
        report: report(slot),
        kind,
    }
}

fn data(slot: u64, bytes: &[u8]) -> NativeEvent {
    event(
        slot,
        EventKind::Data {
            plaintext: bytes.to_vec(),
            peer_closed: false,
        },
    )
}

fn failure(kind: NativeFailureKind) -> EventKind {
    EventKind::Failed(NativeFailure {
        kind,
        message: "it broke".to_string(),
        connection_reset: false,
    })
}

fn process(engine: &mut NativeHttpBackend, events: Vec<NativeEvent>, now: u64) {
    engine.process_events(VecDeque::from(events), now);
}

/// Answers the only lookup that is asked for, and gives the connection and what is sent on it.
fn connect(engine: &mut NativeHttpBackend, now: u64) -> (u64, Vec<u8>) {
    let asked = effects(engine);
    let [Effect::Locate { key, .. }] = asked.as_slice() else {
        panic!("expected a lookup, got {asked:?}");
    };
    engine.finish_lookup(
        *key,
        LookupOutcome::Answer(vec![b"192.0.2.1".to_vec()]),
        now,
    );
    let mut made = effects(engine);
    assert_eq!(made.len(), 1);
    match made.remove(0) {
        Effect::Connect { slot, bytes, .. } => (slot, bytes),
        other => panic!("expected a connection, got {other:?}"),
    }
}

/// Submits a request on a new connection, and lets its bytes be written.
fn send(engine: &mut NativeHttpBackend, id: u64, request: Request, now: u64) -> u64 {
    engine.submit(id, request, now, now);
    let (slot, _) = connect(engine, now);
    process(
        engine,
        vec![
            event(slot, EventKind::Connected),
            event(slot, EventKind::WriteDrained),
        ],
        now,
    );
    effects(engine);
    slot
}

fn get(path: &str) -> Request {
    Request::get(&format!("http://example.test{path}"))
}

fn completed(engine: &mut NativeHttpBackend) -> (u64, Response) {
    let mut ends = done(engine);
    assert_eq!(ends.len(), 1, "expected one end, got {ends:?}");
    match ends.remove(0) {
        (id, Completion::Completed(response)) => (id, response),
        other => panic!("expected a response, got {other:?}"),
    }
}

fn failed(engine: &mut NativeHttpBackend) -> (u64, Error) {
    let mut ends = done(engine);
    assert_eq!(ends.len(), 1, "expected one end, got {ends:?}");
    match ends.remove(0) {
        (id, Completion::Failed(error)) => (id, error),
        other => panic!("expected a failure, got {other:?}"),
    }
}

fn closes(asked: &[Effect], slot: u64) -> bool {
    asked
        .iter()
        .any(|effect| matches!(effect, Effect::Close { slot: closed } if *closed == slot))
}

#[test]
fn limits_without_room_for_a_connection_are_refused() {
    for limits in [
        ConnectionLimits {
            global: 0,
            ..CONNECTIONS
        },
        ConnectionLimits {
            per_origin: 0,
            ..CONNECTIONS
        },
    ] {
        let error = match NativeHttpBackend::new(LIMITS, false, limits) {
            Err(error) => error,
            Ok(_) => panic!("limits of zero must be refused"),
        };
        assert_eq!(error.kind(), ErrorKind::Internal);
    }
}

#[test]
fn a_clean_connection_carries_the_next_request() {
    let mut engine = engine(CONNECTIONS);
    let slot = send(&mut engine, 1, get("/one"), 0);
    process(
        &mut engine,
        vec![data(slot, b"HTTP/1.1 200 OK\r\nContent-Length: 3\r\n\r\none")],
        5,
    );
    assert!(matches!(
        effects(&mut engine).as_slice(),
        [Effect::SetDeadline { slot: idle, deadline: Some(1_005) }] if *idle == slot
    ));
    let (id, response) = completed(&mut engine);
    assert_eq!((id, response.body.as_slice()), (1, b"one".as_slice()));
    assert!(engine.wants_poll_without_requests());

    engine.submit(2, get("/two"), 6, 6);
    let asked = effects(&mut engine);
    let [Effect::Reuse {
        slot: reused,
        bytes,
        ..
    }] = asked.as_slice()
    else {
        panic!("the connection must be used again, got {asked:?}");
    };
    assert_eq!(*reused, slot);
    assert!(bytes.starts_with(b"GET /two HTTP/1.1\r\n"));
    assert!(!engine.wants_poll_without_requests());
}

#[test]
fn an_idle_limit_of_zero_disables_reuse() {
    for limits in [
        ConnectionLimits {
            idle_global: 0,
            ..CONNECTIONS
        },
        ConnectionLimits {
            idle_per_origin: 0,
            ..CONNECTIONS
        },
        ConnectionLimits {
            idle_timeout: 0,
            ..CONNECTIONS
        },
    ] {
        let mut engine = engine(limits);
        let slot = send(&mut engine, 1, get("/"), 0);
        process(
            &mut engine,
            vec![data(slot, b"HTTP/1.1 200 OK\r\nContent-Length: 0\r\n\r\n")],
            5,
        );
        assert!(closes(&effects(&mut engine), slot));
        completed(&mut engine);
    }
}

#[test]
fn a_connection_that_is_not_clean_is_closed() {
    // The peer asks for it.
    let mut first = engine(CONNECTIONS);
    let slot = send(&mut first, 1, get("/"), 0);
    process(
        &mut first,
        vec![data(
            slot,
            b"HTTP/1.1 200 OK\r\nContent-Length: 0\r\nConnection: close\r\n\r\n",
        )],
        5,
    );
    assert!(closes(&effects(&mut first), slot));
    completed(&mut first);

    // The request was not written to its end.
    let mut second = engine(CONNECTIONS);
    second.submit(1, get("/"), 0, 0);
    let (slot, _) = connect(&mut second, 0);
    process(
        &mut second,
        vec![
            event(slot, EventKind::Connected),
            data(slot, b"HTTP/1.1 200 OK\r\nContent-Length: 0\r\n\r\n"),
        ],
        5,
    );
    assert!(closes(&effects(&mut second), slot));
    completed(&mut second);
}

#[test]
fn a_protocol_failure_closes_the_connection_and_is_not_repeated() {
    let mut engine = engine(CONNECTIONS);
    let slot = send(&mut engine, 1, get("/"), 0);
    process(&mut engine, vec![data(slot, b"NOT HTTP\r\n\r\n")], 5);
    let (id, error) = failed(&mut engine);
    assert_eq!(id, 1);
    assert_eq!(error.transport_stage(), Some(TransportStage::Http));
    assert!(matches!(
        effects(&mut engine).as_slice(),
        [Effect::Close { slot: closed }] if *closed == slot
    ));
}

#[test]
fn bytes_behind_a_response_are_a_failure() {
    let mut engine = engine(CONNECTIONS);
    let slot = send(&mut engine, 1, get("/"), 0);
    process(
        &mut engine,
        vec![data(slot, b"HTTP/1.1 200 OK\r\nContent-Length: 2\r\n\r\nokjunk")],
        5,
    );
    let (_, error) = failed(&mut engine);
    assert_eq!(
        error.message(),
        "the peer sent bytes after the completed HTTP response"
    );
}

#[test]
fn a_reused_connection_that_the_peer_closes_fails_without_a_replay() {
    let mut engine = engine(CONNECTIONS);
    let slot = send(&mut engine, 1, get("/"), 0);
    process(
        &mut engine,
        vec![data(slot, b"HTTP/1.1 200 OK\r\nContent-Length: 0\r\n\r\n")],
        5,
    );
    completed(&mut engine);
    effects(&mut engine);
    engine.submit(2, get("/again"), 6, 6);
    effects(&mut engine);
    process(&mut engine, vec![event(slot, EventKind::PeerClosed)], 7);
    let (id, error) = failed(&mut engine);
    assert_eq!(id, 2);
    assert_eq!(error.transport_stage(), Some(TransportStage::Receive));
    assert!(matches!(
        effects(&mut engine).as_slice(),
        [Effect::Close { .. }]
    ));
}

#[test]
fn a_close_delimited_response_completes_when_the_peer_closes() {
    let mut engine = engine(CONNECTIONS);
    let slot = send(&mut engine, 1, get("/"), 0);
    process(
        &mut engine,
        vec![data(slot, b"HTTP/1.1 200 OK\r\nConnection: close\r\n\r\nbody")],
        5,
    );
    assert!(done(&mut engine).is_empty());
    effects(&mut engine);
    process(&mut engine, vec![event(slot, EventKind::PeerClosed)], 6);
    let (_, response) = completed(&mut engine);
    assert_eq!(response.body, b"body");
    assert!(closes(&effects(&mut engine), slot));
}

#[test]
fn idle_connections_end_by_time_by_noise_and_by_events() {
    let park = || {
        let mut engine = engine(CONNECTIONS);
        let slot = send(&mut engine, 1, get("/"), 0);
        process(
            &mut engine,
            vec![data(slot, b"HTTP/1.1 200 OK\r\nContent-Length: 0\r\n\r\n")],
            5,
        );
        completed(&mut engine);
        effects(&mut engine);
        (engine, slot)
    };

    let (mut engine, slot) = park();
    engine.expire_idle(1_004);
    assert!(effects(&mut engine).is_empty());
    engine.expire_idle(1_005);
    assert!(closes(&effects(&mut engine), slot));
    assert!(!engine.wants_poll_without_requests());

    let (mut engine, slot) = park();
    engine.note_noise(slot);
    engine.submit(2, get("/"), 6, 6);
    let asked = effects(&mut engine);
    assert!(closes(&asked, slot));
    assert!(matches!(asked.last(), Some(Effect::Locate { .. })));

    for kind in [
        EventKind::PeerClosed,
        EventKind::DeadlineExpired,
        failure(NativeFailureKind::Read),
    ] {
        let (mut engine, slot) = park();
        process(&mut engine, vec![event(slot, kind)], 6);
        assert!(closes(&effects(&mut engine), slot));
        assert!(done(&mut engine).is_empty());
    }

    let (mut engine, slot) = park();
    process(&mut engine, vec![event(slot, EventKind::WriteDrained)], 6);
    assert!(effects(&mut engine).is_empty());
    assert!(engine.wants_poll_without_requests());
}

#[test]
fn redirects_keep_or_change_the_method_and_resolve_relative_locations() {
    for (status, expected, body) in [
        (303, "GET /final?x=1 HTTP/1.1\r\n", ""),
        (307, "POST /final?x=1 HTTP/1.1\r\n", "payload"),
        (308, "POST /final?x=1 HTTP/1.1\r\n", "payload"),
    ] {
        let mut engine = engine(CONNECTIONS);
        let request = Request::post("http://example.test/base/start")
            .header("Authorization", b"same-origin".to_vec())
            .body(b"payload".to_vec());
        let slot = send(&mut engine, 1, request, 0);
        process(
            &mut engine,
            vec![data(
                slot,
                format!("HTTP/1.1 {status} R\r\nLocation: ../final?x=1\r\nContent-Length: 0\r\n\r\n")
                    .as_bytes(),
            )],
            5,
        );
        assert!(done(&mut engine).is_empty());
        let asked = effects(&mut engine);
        let Some(Effect::Reuse { bytes, .. }) = asked.last() else {
            panic!("the redirect must be followed, got {asked:?}");
        };
        let text = String::from_utf8(bytes.clone()).expect("the request is text");
        assert!(text.starts_with(expected), "{text}");
        assert!(text.ends_with(&format!("\r\n\r\n{body}")), "{text}");
        assert!(text.contains("Authorization: same-origin\r\n"));
        assert_eq!(text.contains("Content-Length:"), status != 303);
    }

    for status in [301, 302] {
        let mut engine = engine(CONNECTIONS);
        let request = Request::post("http://example.test/start").body(b"payload".to_vec());
        let slot = send(&mut engine, 1, request, 0);
        process(
            &mut engine,
            vec![data(
                slot,
                format!("HTTP/1.1 {status} R\r\nLocation: /final\r\nContent-Length: 0\r\n\r\n")
                    .as_bytes(),
            )],
            5,
        );
        assert_eq!(completed(&mut engine).1.status, status);
    }
}

#[test]
fn a_redirect_to_another_origin_leaves_credentials_behind() {
    let mut engine = engine(CONNECTIONS);
    let request = get("/start")
        .header("Authorization", b"secret".to_vec())
        .header("Proxy-Authorization", b"secret".to_vec())
        .header("Cookie", b"secret".to_vec())
        .header("Host", b"caller.invalid".to_vec())
        .header("X-Kept", b"yes".to_vec());
    let slot = send(&mut engine, 1, request, 0);
    process(
        &mut engine,
        vec![data(
            slot,
            b"HTTP/1.1 302 R\r\nLocation: http://other.test/target\r\nContent-Length: 0\r\n\r\n",
        )],
        5,
    );
    let asked = effects(&mut engine);
    let Some(Effect::Locate { key, host }) = asked.last() else {
        panic!("the other host must be looked up, got {asked:?}");
    };
    assert_eq!(host, b"other.test");
    engine.finish_lookup(*key, LookupOutcome::Answer(vec![b"192.0.2.2".to_vec()]), 6);
    let asked = effects(&mut engine);
    let [Effect::Connect { bytes, address, port: 80, .. }] = asked.as_slice() else {
        panic!("expected a connection, got {asked:?}");
    };
    assert_eq!(address, b"192.0.2.2");
    assert_eq!(
        bytes,
        b"GET /target HTTP/1.1\r\nX-Kept: yes\r\nHost: other.test\r\n\r\n"
    );
}

#[test]
fn redirects_are_counted() {
    let mut engine = engine(CONNECTIONS);
    let mut request = get("/loop");
    request.options.redirect_limit = 2;
    let slot = send(&mut engine, 1, request, 0);
    let answer = b"HTTP/1.1 302 R\r\nLocation: /loop\r\nContent-Length: 0\r\n\r\n";
    for _ in 0..2 {
        process(&mut engine, vec![data(slot, answer)], 5);
        assert!(done(&mut engine).is_empty());
        process(&mut engine, vec![event(slot, EventKind::WriteDrained)], 5);
    }
    process(&mut engine, vec![data(slot, answer)], 5);
    assert_eq!(failed(&mut engine).1.kind(), ErrorKind::Redirect);
}

#[test]
fn a_redirect_does_not_buy_time() {
    let mut engine = engine(CONNECTIONS);
    let mut request = get("/start");
    request.options.total_timeout = Some(100);
    request.options.inactivity_timeout = Some(1_000);
    let slot = send(&mut engine, 1, request, 0);
    process(
        &mut engine,
        vec![data(
            slot,
            b"HTTP/1.1 302 R\r\nLocation: /next\r\nContent-Length: 0\r\n\r\n",
        )],
        60,
    );
    let asked = effects(&mut engine);
    assert!(
        matches!(
            asked.last(),
            Some(Effect::Reuse {
                deadline: Some(100),
                ..
            })
        ),
        "{asked:?}"
    );
    process(&mut engine, vec![event(slot, EventKind::DeadlineExpired)], 100);
    let (_, error) = failed(&mut engine);
    assert_eq!(error.timeout_kind(), Some(TimeoutKind::Total));
}

#[test]
fn deadlines_are_told_apart() {
    // While the request waits for a lookup.
    let mut first = engine(CONNECTIONS);
    let mut request = get("/");
    request.options.connect_timeout = Some(10);
    first.submit(1, request, 0, 0);
    let asked = effects(&mut first);
    assert!(matches!(asked.as_slice(), [Effect::Locate { .. }]));
    first.expire_resolves(9);
    assert!(done(&mut first).is_empty());
    first.expire_resolves(10);
    assert_eq!(
        failed(&mut first).1.timeout_kind(),
        Some(TimeoutKind::Connect)
    );
    assert!(matches!(
        effects(&mut first).as_slice(),
        [Effect::CancelLocate { .. }]
    ));

    // While the connection is made, and once it stands.
    for (stands, expected) in [(false, TimeoutKind::Connect), (true, TimeoutKind::Inactivity)] {
        let mut engine = engine(CONNECTIONS);
        let mut request = get("/");
        request.options.connect_timeout = Some(10);
        request.options.inactivity_timeout = Some(50);
        engine.submit(1, request, 0, 0);
        let (slot, _) = connect(&mut engine, 0);
        if stands {
            process(&mut engine, vec![event(slot, EventKind::Connected)], 5);
            effects(&mut engine);
            process(&mut engine, vec![event(slot, EventKind::DeadlineExpired)], 10);
            assert!(matches!(
                effects(&mut engine).as_slice(),
                [Effect::SetDeadline {
                    deadline: Some(55),
                    ..
                }]
            ));
            process(&mut engine, vec![event(slot, EventKind::DeadlineExpired)], 55);
        } else {
            process(&mut engine, vec![event(slot, EventKind::DeadlineExpired)], 10);
        }
        assert_eq!(failed(&mut engine).1.timeout_kind(), Some(expected));
    }

    // Before anything could start.
    let mut late = engine(CONNECTIONS);
    let mut request = get("/");
    request.options.total_timeout = Some(10);
    late.submit(1, request, 0, 10);
    assert_eq!(failed(&mut late).1.timeout_kind(), Some(TimeoutKind::Total));
    assert!(effects(&mut late).is_empty());
}

#[test]
fn progress_postpones_inactivity() {
    let mut engine = engine(CONNECTIONS);
    let mut request = get("/");
    request.options.inactivity_timeout = Some(50);
    let slot = send(&mut engine, 1, request, 0);
    process(&mut engine, vec![data(slot, b"HTTP/1.1 200 OK\r\n")], 40);
    assert!(matches!(
        effects(&mut engine).as_slice(),
        [Effect::SetDeadline {
            deadline: Some(90),
            ..
        }]
    ));
}

#[test]
fn the_queue_is_served_in_order_and_never_opens_past_the_cap() {
    let mut engine = engine(ConnectionLimits {
        global: 2,
        per_origin: 1,
        ..CONNECTIONS
    });
    let slot = send(&mut engine, 1, get("/one"), 0);
    engine.submit(2, get("/two"), 1, 1);
    engine.submit(3, get("/three"), 1, 1);
    assert!(effects(&mut engine).is_empty(), "the origin is at its limit");
    engine.submit(4, Request::get("http://other.test/"), 1, 1);
    assert!(matches!(
        effects(&mut engine).as_slice(),
        [Effect::Locate { .. }]
    ));
    engine.submit(5, Request::get("http://third.test/"), 1, 1);
    assert!(effects(&mut engine).is_empty(), "all connections are in use");

    process(
        &mut engine,
        vec![data(slot, b"HTTP/1.1 200 OK\r\nContent-Length: 0\r\n\r\n")],
        5,
    );
    completed(&mut engine);
    effects(&mut engine);
    engine.dispatch_waiting(5);
    let asked = effects(&mut engine);
    let [Effect::Reuse { bytes, .. }] = asked.as_slice() else {
        panic!("the oldest request must go out, got {asked:?}");
    };
    assert!(bytes.starts_with(b"GET /two "));
    assert_eq!(engine.waiting.len(), 2);
}

#[test]
fn requests_in_the_queue_keep_the_deadlines_of_their_acceptance() {
    let mut engine = engine(ConnectionLimits {
        global: 1,
        per_origin: 1,
        ..CONNECTIONS
    });
    send(&mut engine, 1, get("/one"), 0);
    let mut request = get("/two");
    request.options.total_timeout = Some(20);
    engine.submit(2, request, 0, 5);
    assert!(effects(&mut engine).is_empty());
    engine.dispatch_waiting(19);
    assert!(done(&mut engine).is_empty());
    engine.dispatch_waiting(20);
    let (id, error) = failed(&mut engine);
    assert_eq!(id, 2);
    assert_eq!(error.timeout_kind(), Some(TimeoutKind::Total));
    assert!(effects(&mut engine).is_empty());
}

#[test]
fn an_idle_connection_makes_room_for_another_origin() {
    let mut engine = engine(ConnectionLimits {
        global: 1,
        per_origin: 1,
        ..CONNECTIONS
    });
    let slot = send(&mut engine, 1, get("/"), 0);
    process(
        &mut engine,
        vec![data(slot, b"HTTP/1.1 200 OK\r\nContent-Length: 0\r\n\r\n")],
        5,
    );
    completed(&mut engine);
    effects(&mut engine);
    engine.submit(2, Request::get("http://other.test/"), 6, 6);
    let asked = effects(&mut engine);
    assert!(closes(&asked, slot));
    assert!(matches!(asked.last(), Some(Effect::Locate { .. })));
}

#[test]
fn a_cancelled_request_leaves_its_place_wherever_it_is() {
    // On a connection.
    let mut engine = engine(ConnectionLimits {
        global: 1,
        per_origin: 1,
        ..CONNECTIONS
    });
    let slot = send(&mut engine, 1, get("/"), 0);
    engine.submit(2, get("/"), 0, 0);
    engine.submit(3, get("/"), 0, 0);
    // In the queue.
    engine.cancel(2);
    assert!(effects(&mut engine).is_empty());
    assert_eq!(engine.waiting.len(), 1);
    engine.cancel(1);
    assert!(closes(&effects(&mut engine), slot));
    // In a lookup.
    engine.dispatch_waiting(1);
    assert!(matches!(
        effects(&mut engine).as_slice(),
        [Effect::Locate { .. }]
    ));
    engine.cancel(3);
    assert!(matches!(
        effects(&mut engine).as_slice(),
        [Effect::CancelLocate { .. }]
    ));
    assert!(done(&mut engine).is_empty());
    // The room is free again.
    engine.submit(4, get("/"), 1, 1);
    assert!(matches!(
        effects(&mut engine).as_slice(),
        [Effect::Locate { .. }]
    ));
    // Nobody is there.
    engine.cancel(77);
    assert!(effects(&mut engine).is_empty());
}

#[test]
fn a_failure_dominates_its_batch() {
    let mut engine = engine(CONNECTIONS);
    let mut request = Request::post("http://example.test/").body(b"payload".to_vec());
    request.options.inactivity_timeout = Some(50);
    engine.submit(1, request, 0, 0);
    let (slot, _) = connect(&mut engine, 0);
    process(&mut engine, vec![event(slot, EventKind::Connected)], 1);
    effects(&mut engine);
    process(
        &mut engine,
        vec![
            event(slot, EventKind::WriteProgress),
            event(slot, failure(NativeFailureKind::Read)),
        ],
        2,
    );
    assert!(matches!(
        effects(&mut engine).as_slice(),
        [Effect::Close { slot: closed }] if *closed == slot
    ));
    let (_, error) = failed(&mut engine);
    assert_eq!(error.transport_stage(), Some(TransportStage::Send));
}

#[test]
fn failures_of_the_socket_layer_have_their_stages() {
    for (kind, stage, limit) in [
        (NativeFailureKind::Connect, Some(TransportStage::Connect), None),
        (NativeFailureKind::Read, Some(TransportStage::Receive), None),
        (NativeFailureKind::Write, Some(TransportStage::Send), None),
        (
            NativeFailureKind::OutboundQueueFull,
            None,
            Some(LimitKind::RequestBodyBytes),
        ),
        (
            NativeFailureKind::ReceiveLimit,
            None,
            Some(LimitKind::ResponseBodyBytes),
        ),
        (NativeFailureKind::Internal, None, None),
    ] {
        let mut engine = engine(CONNECTIONS);
        let slot = send(&mut engine, 1, get("/"), 0);
        process(&mut engine, vec![event(slot, failure(kind))], 2);
        let (_, error) = failed(&mut engine);
        assert_eq!(error.transport_stage(), stage);
        assert_eq!(error.limit_kind(), limit);
        if kind == NativeFailureKind::Internal {
            assert_eq!(error.kind(), ErrorKind::Internal);
            assert_eq!(error.message(), "it broke");
        }
    }
}

#[test]
fn lookups_that_lead_nowhere_end_the_request() {
    for (outcome, stage, kind) in [
        (
            LookupOutcome::Answer(Vec::new()),
            Some(TransportStage::Dns),
            ErrorKind::Transport,
        ),
        (
            LookupOutcome::Failed("no such host".to_string()),
            Some(TransportStage::Dns),
            ErrorKind::Transport,
        ),
        (LookupOutcome::Unavailable, None, ErrorKind::Unsupported),
    ] {
        let mut engine = engine(ConnectionLimits {
            global: 1,
            per_origin: 1,
            ..CONNECTIONS
        });
        engine.submit(1, get("/"), 0, 0);
        let asked = effects(&mut engine);
        let [Effect::Locate { key, .. }] = asked.as_slice() else {
            panic!("expected a lookup, got {asked:?}");
        };
        engine.finish_lookup(*key, outcome, 1);
        let (_, error) = failed(&mut engine);
        assert_eq!(error.transport_stage(), stage);
        assert_eq!(error.kind(), kind);
        // A late answer changes nothing, and the room is free again.
        engine.finish_lookup(*key, LookupOutcome::Unavailable, 2);
        assert!(done(&mut engine).is_empty());
        engine.submit(2, get("/"), 3, 3);
        assert!(matches!(
            effects(&mut engine).as_slice(),
            [Effect::Locate { .. }]
        ));
    }
}

#[test]
fn https_needs_tls_and_goes_through_its_handshake() {
    let secure = |path: &str| Request::get(&format!("https://example.test{path}"));
    let mut plain = engine(CONNECTIONS);
    plain.submit(1, secure("/"), 0, 0);
    let asked = effects(&mut plain);
    let [Effect::Locate { key, .. }] = asked.as_slice() else {
        panic!("expected a lookup, got {asked:?}");
    };
    plain.finish_lookup(*key, LookupOutcome::Answer(vec![b"192.0.2.1".to_vec()]), 0);
    let (_, error) = failed(&mut plain);
    assert_eq!(error.kind(), ErrorKind::Unsupported);

    let open = || {
        let mut engine =
            NativeHttpBackend::new(LIMITS, true, CONNECTIONS).expect("the limits are valid");
        engine.submit(1, secure("/"), 0, 0);
        let asked = effects(&mut engine);
        let [Effect::Locate { key, .. }] = asked.as_slice() else {
            panic!("expected a lookup, got {asked:?}");
        };
        engine.finish_lookup(*key, LookupOutcome::Answer(vec![b"192.0.2.1".to_vec()]), 0);
        let asked = effects(&mut engine);
        let [Effect::Connect { slot, tls: Some(_), port: 443, .. }] = asked.as_slice() else {
            panic!("expected a connection, got {asked:?}");
        };
        let slot = *slot;
        process(&mut engine, vec![event(slot, EventKind::Connected)], 1);
        effects(&mut engine);
        (engine, slot)
    };
    let phase = |handshaking| {
        Some(TlsPhase {
            handshaking,
            request_encrypted: !handshaking,
        })
    };

    let (mut engine, slot) = open();
    process(&mut engine, vec![event(slot, EventKind::PeerClosed)], 2);
    let (_, error) = failed(&mut engine);
    assert_eq!(error.tls_failure(), Some(TlsFailure::Protocol));

    let (mut engine, slot) = open();
    process(
        &mut engine,
        vec![event(slot, failure(NativeFailureKind::Read))],
        2,
    );
    let (_, error) = failed(&mut engine);
    assert_eq!(error.tls_failure(), Some(TlsFailure::Io));
    assert_eq!(
        error.message(),
        "the connection failed during the TLS handshake: it broke"
    );

    let (mut engine, slot) = open();
    process(
        &mut engine,
        vec![NativeEvent {
            report: report(slot),
            kind: EventKind::SessionFailed(Error::tls(TlsFailure::Certificate, "not trusted")),
        }],
        2,
    );
    let (_, error) = failed(&mut engine);
    assert_eq!(error.message(), "not trusted");

    let (mut engine, slot) = open();
    process(
        &mut engine,
        vec![NativeEvent {
            report: SocketReport {
                tls: phase(false),
                ..report(slot)
            },
            kind: EventKind::Data {
                plaintext: Vec::new(),
                peer_closed: false,
            },
        }],
        2,
    );
    process(&mut engine, vec![event(slot, EventKind::PeerClosed)], 3);
    let (_, error) = failed(&mut engine);
    assert_eq!(
        error.message(),
        "the TLS peer closed without an authenticated close notification"
    );

    let (mut engine, slot) = open();
    process(
        &mut engine,
        vec![NativeEvent {
            report: SocketReport {
                tls: phase(false),
                ..report(slot)
            },
            kind: EventKind::Data {
                plaintext: b"HTTP/1.1 200 OK\r\n\r\nall".to_vec(),
                peer_closed: true,
            },
        }],
        2,
    );
    assert_eq!(completed(&mut engine).1.body, b"all");
}

fn stream(engine: &mut NativeHttpBackend, id: u64, request: Request, capacity: usize) -> u64 {
    engine.submit_stream(
        id,
        request,
        None,
        ResponseSink::new(capacity, LIMITS.body_bytes),
        0,
        0,
    );
    let (slot, _) = connect(engine, 0);
    process(
        engine,
        vec![
            event(slot, EventKind::Connected),
            event(slot, EventKind::WriteDrained),
        ],
        0,
    );
    effects(engine);
    slot
}

fn delivered(engine: &mut NativeHttpBackend) -> (u64, ResponseSink) {
    let mut ends = done(engine);
    assert_eq!(ends.len(), 1, "expected one end, got {ends:?}");
    match ends.remove(0) {
        (id, Completion::Delivered(sink)) => (id, sink),
        other => panic!("expected a delivered response, got {other:?}"),
    }
}

#[test]
fn a_reader_that_lags_pauses_the_connection_and_its_inactivity() {
    let mut engine = engine(CONNECTIONS);
    let mut request = get("/");
    request.options.inactivity_timeout = Some(50);
    request.options.total_timeout = Some(1_000);
    let slot = stream(&mut engine, 1, request, 4);
    process(
        &mut engine,
        vec![data(slot, b"HTTP/1.1 200 OK\r\nContent-Length: 6\r\n\r\nabcdef")],
        10,
    );
    let asked = effects(&mut engine);
    assert!(
        matches!(
            asked.as_slice(),
            [
                Effect::SetDeadline {
                    deadline: Some(1_000),
                    ..
                },
                Effect::SetReadAllowance { allowance: 0, .. }
            ]
        ),
        "{asked:?}"
    );
    assert!(done(&mut engine).is_empty());
    assert!(matches!(
        engine.read_stream(1, 3),
        Some(StreamRead::Data(bytes)) if bytes == b"abc"
    ));
    assert!(engine.read_stream(9, 3).is_none());
    engine.resume_streams(&[report(slot)], 20);
    let (id, mut sink) = delivered(&mut engine);
    assert_eq!(id, 1);
    assert!(matches!(sink.end, Some(SinkEnd::Complete)));
    assert!(matches!(sink.try_read(9), StreamRead::Data(bytes) if bytes == b"def"));
    assert!(matches!(sink.try_read(9), StreamRead::Eof));
    assert!(matches!(
        effects(&mut engine).as_slice(),
        [Effect::SetDeadline { slot: idle, deadline: Some(1_020) }] if *idle == slot
    ));
}

#[test]
fn a_streamed_response_shows_only_the_end_of_a_redirect() {
    let mut engine = engine(CONNECTIONS);
    let slot = stream(&mut engine, 1, get("/start"), 16);
    process(
        &mut engine,
        vec![data(
            slot,
            b"HTTP/1.1 302 R\r\nLocation: /next\r\nContent-Length: 3\r\n\r\nold",
        )],
        5,
    );
    assert!(done(&mut engine).is_empty());
    let asked = effects(&mut engine);
    assert!(matches!(asked.last(), Some(Effect::Reuse { .. })), "{asked:?}");
    process(
        &mut engine,
        vec![data(slot, b"HTTP/1.1 200 OK\r\nContent-Length: 3\r\n\r\nnew")],
        6,
    );
    let (_, mut sink) = delivered(&mut engine);
    assert_eq!(sink.head.as_ref().expect("the head is there").status, 200);
    assert!(matches!(sink.try_read(9), StreamRead::Data(bytes) if bytes == b"new"));
}

#[test]
fn a_streamed_response_that_fails_tells_its_reader() {
    let mut engine = engine(CONNECTIONS);
    let slot = stream(&mut engine, 1, get("/"), 16);
    process(
        &mut engine,
        vec![data(slot, b"HTTP/1.1 200 OK\r\nContent-Length: 5\r\n\r\nab")],
        5,
    );
    process(&mut engine, vec![event(slot, EventKind::PeerClosed)], 6);
    let (_, mut sink) = delivered(&mut engine);
    assert!(matches!(sink.try_read(9), StreamRead::Data(bytes) if bytes == b"ab"));
    assert!(matches!(
        sink.try_read(9),
        StreamRead::Failed(error) if error.transport_stage() == Some(TransportStage::Receive)
    ));

    let mut late = engine_with_late_stream();
    let (_, sink) = delivered(&mut late);
    assert!(matches!(
        sink.end,
        Some(SinkEnd::Failed(error)) if error.timeout_kind() == Some(TimeoutKind::Total)
    ));
}

fn engine_with_late_stream() -> NativeHttpBackend {
    let mut engine = engine(CONNECTIONS);
    let mut request = get("/");
    request.options.total_timeout = Some(5);
    engine.submit_stream(1, request, None, ResponseSink::new(4, 4), 0, 5);
    engine
}

fn upload(framing: UploadFraming) -> UploadBody {
    UploadBody::new(framing, 16)
}

fn sent(asked: Vec<Effect>) -> Vec<u8> {
    asked
        .into_iter()
        .filter_map(|effect| match effect {
            Effect::Send { bytes, .. } => Some(bytes),
            _ => None,
        })
        .flatten()
        .collect()
}

fn start_upload(engine: &mut NativeHttpBackend, framing: UploadFraming) -> (u64, Vec<u8>) {
    engine.submit_stream(
        1,
        Request::post("http://example.test/upload"),
        Some(upload(framing)),
        ResponseSink::new(64, LIMITS.body_bytes),
        0,
        0,
    );
    let (slot, head) = connect(engine, 0);
    process(engine, vec![event(slot, EventKind::Connected)], 0);
    effects(engine);
    (slot, head)
}

#[test]
fn a_body_of_known_length_is_sent_piece_by_piece() {
    let mut engine = engine(CONNECTIONS);
    let (slot, head) = start_upload(&mut engine, UploadFraming::Fixed(6));
    assert!(head.ends_with(b"Content-Length: 6\r\n\r\n"));
    assert!(engine.feed_upload(1, UploadFeed::Chunk(b"abc".to_vec())));
    assert!(!engine.feed_upload(9, UploadFeed::Finished));
    engine.resume_streams(&[report(slot)], 1);
    assert_eq!(sent(effects(&mut engine)), b"abc");
    assert!(engine.feed_upload(1, UploadFeed::Chunk(b"def".to_vec())));
    assert!(engine.feed_upload(1, UploadFeed::Finished));
    assert!(!engine.feed_upload(1, UploadFeed::Chunk(b"more".to_vec())));
    engine.resume_streams(&[report(slot)], 2);
    assert_eq!(sent(effects(&mut engine)), b"def");
    process(&mut engine, vec![event(slot, EventKind::WriteDrained)], 3);
    process(
        &mut engine,
        vec![data(slot, b"HTTP/1.1 200 OK\r\nContent-Length: 0\r\n\r\n")],
        4,
    );
    delivered(&mut engine);
    // Everything was written, so that the connection is clean.
    assert!(engine.wants_poll_without_requests());
}

#[test]
fn a_body_of_unknown_length_is_sent_in_chunks() {
    let mut engine = engine(CONNECTIONS);
    let (slot, head) = start_upload(&mut engine, UploadFraming::Chunked);
    assert!(head.ends_with(b"Transfer-Encoding: chunked\r\n\r\n"));
    assert!(engine.feed_upload(1, UploadFeed::Chunk(b"hello".to_vec())));
    assert!(engine.feed_upload(1, UploadFeed::Finished));
    engine.resume_streams(&[report(slot)], 1);
    assert_eq!(sent(effects(&mut engine)), b"5\r\nhello\r\n0\r\n\r\n");
}

#[test]
fn bodies_that_do_not_keep_their_promise_fail_while_sending() {
    // One that ends too early.
    let mut short = engine(CONNECTIONS);
    let (slot, _) = start_upload(&mut short, UploadFraming::Fixed(6));
    assert!(short.feed_upload(1, UploadFeed::Chunk(b"ab".to_vec())));
    assert!(!short.feed_upload(1, UploadFeed::Finished));
    short.resume_streams(&[report(slot)], 1);
    let (_, sink) = delivered(&mut short);
    assert!(matches!(
        sink.end,
        Some(SinkEnd::Failed(error)) if error.transport_stage() == Some(TransportStage::Send)
    ));
    assert!(closes(&effects(&mut short), slot));

    // One that its producer gave up.
    let mut given_up = engine(CONNECTIONS);
    let (slot, _) = start_upload(&mut given_up, UploadFraming::Chunked);
    assert!(given_up.feed_upload(
        1,
        UploadFeed::Failed(Error::transport(TransportStage::Send, "given up"))
    ));
    given_up.resume_streams(&[report(slot)], 1);
    let (_, sink) = delivered(&mut given_up);
    assert!(matches!(
        sink.end,
        Some(SinkEnd::Failed(error)) if error.message() == "given up"
    ));

    // One that is too long, or too much at a time.
    let mut long = engine(CONNECTIONS);
    start_upload(&mut long, UploadFraming::Fixed(6));
    assert!(!long.feed_upload(1, UploadFeed::Chunk(b"abcdefg".to_vec())));
    let mut full = engine(CONNECTIONS);
    start_upload(&mut full, UploadFraming::Chunked);
    assert!(full.feed_upload(1, UploadFeed::Chunk(vec![0; 10])));
    assert!(!full.feed_upload(1, UploadFeed::Chunk(vec![0; 7])));
    assert!(full.feed_upload(1, UploadFeed::Chunk(vec![0; 6])));
}

#[test]
fn an_early_response_ends_the_upload_and_the_connection() {
    let mut engine = engine(CONNECTIONS);
    let (slot, _) = start_upload(&mut engine, UploadFraming::Fixed(6));
    process(
        &mut engine,
        vec![data(slot, b"HTTP/1.1 403 No\r\nContent-Length: 0\r\n\r\n")],
        4,
    );
    let (_, sink) = delivered(&mut engine);
    assert_eq!(sink.head.expect("the head is there").status, 403);
    assert!(closes(&effects(&mut engine), slot));
}

#[test]
fn a_redirect_of_a_streamed_upload_is_handed_to_the_reader() {
    let mut engine = engine(CONNECTIONS);
    let (slot, _) = start_upload(&mut engine, UploadFraming::Fixed(6));
    process(
        &mut engine,
        vec![data(
            slot,
            b"HTTP/1.1 307 R\r\nLocation: /next\r\nContent-Length: 0\r\n\r\n",
        )],
        4,
    );
    let (_, sink) = delivered(&mut engine);
    assert_eq!(sink.head.expect("the head is there").status, 307);
}

#[test]
fn uploads_take_chunks_while_their_request_waits() {
    let mut engine = engine(ConnectionLimits {
        global: 1,
        per_origin: 1,
        ..CONNECTIONS
    });
    let slot = send(&mut engine, 7, get("/"), 0);
    engine.submit_stream(
        1,
        Request::post("http://example.test/upload"),
        Some(upload(UploadFraming::Fixed(3))),
        ResponseSink::new(64, 64),
        0,
        0,
    );
    assert!(engine.feed_upload(1, UploadFeed::Chunk(b"a".to_vec())));
    process(
        &mut engine,
        vec![data(
            slot,
            b"HTTP/1.1 200 OK\r\nContent-Length: 0\r\nConnection: close\r\n\r\n",
        )],
        1,
    );
    completed(&mut engine);
    effects(&mut engine);
    engine.dispatch_waiting(2);
    assert!(engine.feed_upload(1, UploadFeed::Chunk(b"bc".to_vec())));
    assert!(engine.feed_upload(1, UploadFeed::Finished));
    let (slot, _) = connect(&mut engine, 2);
    process(&mut engine, vec![event(slot, EventKind::Connected)], 3);
    assert_eq!(sent(effects(&mut engine)), b"abc");
}

fn engines(connections: ConnectionLimits) -> NativeEngines {
    NativeEngines {
        http: engine(connections),
        tcp: TcpEngine::new(true),
        lookups: LookupEngine::new(true),
    }
}

#[test]
fn a_turn_does_what_is_due() {
    let mut engines = engines(ConnectionLimits {
        global: 1,
        per_origin: 1,
        ..CONNECTIONS
    });
    let slot = send(&mut engines.http, 1, get("/one"), 0);
    engines.http.submit(2, get("/two"), 0, 0);
    engines.begin_turn(&[report(slot)], &[], VecDeque::new(), 1);
    assert!(effects(&mut engines.http).is_empty());
    assert_eq!(engines.poll_deadline(500, 1), 500);
    engines.end_turn(
        VecDeque::from(vec![data(
            slot,
            b"HTTP/1.1 200 OK\r\nContent-Length: 0\r\n\r\n",
        )]),
        VecDeque::new(),
        &[],
        VecDeque::new(),
        2,
    );
    assert_eq!(engines.poll_deadline(500, 2), 2);
    assert_eq!(completed(&mut engines.http).0, 1);
    let asked = effects(&mut engines.http);
    assert!(
        matches!(asked.last(), Some(Effect::Reuse { slot: reused, .. }) if *reused == slot),
        "{asked:?}"
    );
    assert!(!engines.wants_poll_without_requests());
}

const PURPOSE: TcpPurpose = TcpPurpose {
    request_id: 2,
    send_window: 10,
    receive_window: 10,
    read_inactivity_timeout: None,
    write_inactivity_timeout: None,
    max_resolve_results: 4,
};

fn hostname() -> TcpConnectTarget {
    TcpConnectTarget::Hostname {
        name: b"example.test".to_vec(),
        port: 9,
    }
}

fn query() -> LookupQuery {
    LookupQuery {
        host: b"example.test".to_vec(),
        family: AddressFamily::Both,
        order: AddressOrder::Ipv4ThenIpv6,
        cache_mode: CacheMode::Use,
        max_results: 4,
        expand_search: false,
    }
}

#[test]
fn lookups_end_for_the_engine_that_asked() {
    let mut engines = engines(CONNECTIONS);
    engines.http.submit(1, get("/"), 0, 0);
    engines
        .tcp
        .submit_tcp_connect(PURPOSE, hostname(), Some(50), 0, 0);
    assert!(engines
        .lookups
        .submit_resolve(3, query(), Some(60), 0, 0)
        .is_none());
    effects(&mut engines.http);
    engines.tcp.take_effects();
    engines.lookups.take_effects();
    assert!(engines.wants_poll_without_requests());

    let address = || vec![b"192.0.2.1".to_vec()];
    engines.begin_turn(
        &[],
        &[],
        VecDeque::from(vec![
            ResolverResult::Public {
                key: 1,
                completion: ResolveCompletion::Failed(Error::transport(
                    TransportStage::Dns,
                    "refused",
                )),
            },
            ResolverResult::Tcp {
                key: 1,
                lookup: TcpLookup::Answer(address()),
            },
            ResolverResult::Http {
                key: 1,
                outcome: LookupOutcome::Answer(address()),
            },
            ResolverResult::Http {
                key: 1,
                outcome: LookupOutcome::Failed("too late".to_string()),
            },
        ]),
        10,
    );
    assert!(matches!(
        effects(&mut engines.http).as_slice(),
        [Effect::Connect { .. }]
    ));
    assert!(matches!(
        engines.tcp.take_effects().items.as_slice(),
        [TcpEffect::Connect { .. }]
    ));
    assert!(matches!(
        engines.lookups.poll_resolves(10).items.as_slice(),
        [BackendResolveCompletion {
            id: 3,
            completion: ResolveCompletion::Failed(error),
        }] if error.message() == "refused"
    ));
    assert!(done(&mut engines.http).is_empty());
}

#[test]
fn lookups_that_are_too_late_end_before_others_are_heard() {
    let mut engines = engines(CONNECTIONS);
    engines
        .tcp
        .submit_tcp_connect(PURPOSE, hostname(), Some(50), 0, 0);
    engines.tcp.take_effects();
    engines.end_turn(
        VecDeque::new(),
        VecDeque::new(),
        &[],
        VecDeque::from(vec![ResolverResult::Tcp {
            key: 1,
            lookup: TcpLookup::Answer(vec![b"192.0.2.1".to_vec()]),
        }]),
        50,
    );
    assert!(matches!(
        engines.tcp.take_effects().items.as_slice(),
        [
            TcpEffect::CancelLocate { key: 1 },
            TcpEffect::Fail { id: 2, .. }
        ]
    ));
}

#[test]
fn a_number_is_given_up_in_the_engine_that_knows_it() {
    let mut engines = engines(CONNECTIONS);
    engines.http.submit(1, get("/"), 0, 0);
    engines
        .tcp
        .submit_tcp_connect(PURPOSE, hostname(), None, 0, 0);
    assert!(engines
        .lookups
        .submit_resolve(3, query(), None, 0, 0)
        .is_none());
    effects(&mut engines.http);
    engines.tcp.take_effects();
    engines.lookups.take_effects();
    engines.cancel(2);
    assert!(effects(&mut engines.http).is_empty());
    assert!(matches!(
        engines.tcp.take_effects().items.as_slice(),
        [TcpEffect::CancelLocate { key: 1 }]
    ));
    engines.cancel(1);
    assert!(matches!(
        effects(&mut engines.http).as_slice(),
        [Effect::CancelLocate { key: 1 }]
    ));
    assert!(engines.wants_poll_without_requests());
    engines.shutdown();
    assert!(!engines.wants_poll_without_requests());
}

const OK: &[u8] = b"HTTP/1.1 200 OK\r\nContent-Length: 0\r\n\r\n";

#[test]
fn connections_are_counted() {
    let mut engine = engine(CONNECTIONS);
    assert!(engine.connection_metrics_available());
    let slot = send(&mut engine, 1, get("/one"), 0);
    process(&mut engine, vec![data(slot, OK)], 1);
    completed(&mut engine);
    effects(&mut engine);
    engine.submit(2, get("/two"), 2, 2);
    let metrics = engine.connection_metrics();
    assert_eq!((metrics.active, metrics.idle), (1, 0));
    process(
        &mut engine,
        vec![event(slot, EventKind::WriteDrained), data(slot, OK)],
        3,
    );
    completed(&mut engine);
    let metrics = engine.connection_metrics();
    assert_eq!(metrics.counts.opened, 1);
    assert_eq!(metrics.counts.reused, 1);
    assert_eq!(metrics.counts.closed, 0);
    assert_eq!(metrics.counts.evicted, 0);
    assert_eq!((metrics.active, metrics.idle, metrics.waiting), (1, 1, 0));
    assert_eq!((metrics.counts.peak_active, metrics.counts.peak_idle), (1, 1));

    process(&mut engine, vec![event(slot, EventKind::PeerClosed)], 4);
    effects(&mut engine);
    send(&mut engine, 3, get("/three"), 5);
    let metrics = engine.connection_metrics();
    assert_eq!(metrics.counts.opened, 2);
    assert_eq!(metrics.counts.reused, 1);
    assert_eq!(metrics.counts.closed, 1);
    assert_eq!(metrics.counts.evicted, 1);
    assert_eq!((metrics.active, metrics.idle), (1, 0));
}

#[test]
fn a_shutdown_counts_every_connection_as_closed() {
    let mut engine = engine(ConnectionLimits {
        global: 2,
        ..CONNECTIONS
    });
    let slot = send(&mut engine, 1, get("/"), 0);
    process(&mut engine, vec![data(slot, OK)], 1);
    effects(&mut engine);
    send(&mut engine, 2, Request::get("http://a.test/"), 2);
    engine.submit(3, Request::get("http://b.test/"), 2, 2);
    engine.submit(4, Request::get("http://c.test/"), 2, 2);
    let metrics = engine.connection_metrics();
    assert_eq!((metrics.active, metrics.idle, metrics.waiting), (2, 0, 1));
    assert_eq!((metrics.counts.opened, metrics.counts.closed), (3, 1));
    assert_eq!(metrics.counts.peak_waiting, 1);
    engine.shutdown();
    let metrics = engine.connection_metrics();
    assert_eq!((metrics.active, metrics.idle, metrics.waiting), (0, 0, 0));
    assert_eq!((metrics.counts.opened, metrics.counts.closed), (3, 3));
    assert_eq!(metrics.counts.peak_active, 2);
}

#[test]
fn a_request_that_cannot_reuse_a_connection_gets_a_new_one() {
    let mut engine = engine(CONNECTIONS);
    let slot = send(&mut engine, 1, get("/one"), 0);
    assert!(!engine.reuse_failed(slot), "a new connection is no reuse");
    process(&mut engine, vec![data(slot, OK)], 1);
    completed(&mut engine);
    effects(&mut engine);

    let mut body = UploadBody::new(UploadFraming::Fixed(3), 8);
    assert!(body.push(b"ab".to_vec()).is_ok());
    engine.submit_stream(
        2,
        Request::post("http://example.test/two"),
        Some(body),
        ResponseSink::new(16, LIMITS.body_bytes),
        2,
        2,
    );
    let asked = effects(&mut engine);
    let [Effect::Reuse { bytes, .. }] = asked.as_slice() else {
        panic!("expected a reuse, got {asked:?}");
    };
    let first = bytes.clone();
    assert!(engine.feed_upload(2, UploadFeed::Chunk(b"c".to_vec())));
    engine.resume_streams(&[report(slot)], 2);
    assert!(effects(&mut engine).is_empty(), "nothing is sent on trial");
    assert!(engine.reuse_failed(slot));
    assert!(!engine.reuse_failed(slot));
    let metrics = engine.connection_metrics();
    assert_eq!(
        (metrics.counts.opened, metrics.counts.closed),
        (2, 1),
        "the old connection is closed and another is opened"
    );
    assert_eq!((metrics.counts.reused, metrics.active), (0, 1));
    let asked = effects(&mut engine);
    let [Effect::Close { slot: closed }, Effect::Locate { key, .. }] = asked.as_slice() else {
        panic!("expected a lookup, got {asked:?}");
    };
    assert_eq!(*closed, slot);
    engine.finish_lookup(*key, LookupOutcome::Answer(vec![b"192.0.2.1".to_vec()]), 3);
    let asked = effects(&mut engine);
    let [Effect::Connect {
        slot: fresh,
        bytes,
        host,
        ..
    }] = asked.as_slice()
    else {
        panic!("expected a connection, got {asked:?}");
    };
    assert_eq!(bytes, &first);
    assert_eq!(host, b"example.test");
    let fresh = *fresh;
    process(&mut engine, vec![event(fresh, EventKind::Connected)], 4);
    assert_eq!(sent(effects(&mut engine)), b"abc");
}

#[test]
fn a_reuse_that_was_heard_of_is_not_taken_back() {
    let mut engine = engine(CONNECTIONS);
    let slot = send(&mut engine, 1, get("/one"), 0);
    process(&mut engine, vec![data(slot, OK)], 1);
    effects(&mut engine);
    engine.submit(2, get("/two"), 2, 2);
    effects(&mut engine);
    process(&mut engine, vec![event(slot, EventKind::WriteProgress)], 3);
    effects(&mut engine);
    assert!(!engine.reuse_failed(slot));
    assert!(effects(&mut engine).is_empty());
}

#[test]
fn a_reader_that_goes_away_ends_its_exchange() {
    let mut engine = engine(CONNECTIONS);
    let slot = stream(&mut engine, 1, get("/"), 16);
    assert!(!engine.close_stream(2));
    assert!(engine.close_stream(1));
    process(
        &mut engine,
        vec![data(
            slot,
            b"HTTP/1.1 200 OK\r\nContent-Length: 3\r\n\r\nabc",
        )],
        1,
    );
    let ended = done(&mut engine);
    let [(1, Completion::Delivered(sink))] = ended.as_slice() else {
        panic!("expected the stream to end, got {ended:?}");
    };
    assert!(
        matches!(&sink.end, Some(SinkEnd::Failed(error)) if error.transport_stage() == Some(TransportStage::Receive)),
        "{sink:?}"
    );
    assert!(closes(&effects(&mut engine), slot));
}

#[test]
fn shutdown_gives_everything_up() {
    let mut engine = engine(CONNECTIONS);
    let slot = send(&mut engine, 1, get("/"), 0);
    engine.submit(2, Request::get("http://other.test/"), 0, 0);
    engine.shutdown();
    assert!(effects(&mut engine).is_empty());
    assert!(done(&mut engine).is_empty());
    assert!(!engine.wants_poll_without_requests());
    process(&mut engine, vec![event(slot, EventKind::PeerClosed)], 1);
    assert!(closes(&effects(&mut engine), slot));
    engine.submit(3, get("/"), 1, 1);
    let (next, _) = connect(&mut engine, 1);
    assert_ne!(next, slot, "numbers are not given out again");
}

#[test]
fn requests_that_cannot_be_sent_end_at_once() {
    let mut engine = engine(CONNECTIONS);
    engine.submit(1, Request::get("ftp://example.test/"), 0, 0);
    assert_eq!(failed(&mut engine).1.kind(), ErrorKind::Unsupported);
    engine.submit(
        2,
        get("/").header("Content-Length", b"5".to_vec()),
        0,
        0,
    );
    assert_eq!(failed(&mut engine).1.kind(), ErrorKind::InvalidRequest);
    assert!(effects(&mut engine).is_empty());
}
