use nbreq_http::failure::{standalone_connect_timeout, NativeFailure, NativeFailureKind};
use nbreq_http::resolver::{
    public_total_timeout, AddressFamily, AddressOrder, CacheMode, LookupEngine, LookupQuery,
    ResolveCompletion, ResolveResponse, ResolveStatus, ResolverEffect,
};
use nbreq_http::standalone::{StandaloneInactivity, StandaloneTcp};
use nbreq_http::tcp::{Endpoint, TcpConnectTarget, TcpEffect, TcpEngine, TcpLookup, TcpPurpose};
use nbreq_http::tcp_events::{TcpEvent, TcpEventKind, TcpReport};
use nbreq_http::types::{Error, ErrorKind, TimeoutKind, TransportStage};
use std::collections::VecDeque;

const PURPOSE: TcpPurpose = TcpPurpose {
    request_id: 7,
    send_window: 100,
    receive_window: 200,
    read_inactivity_timeout: Some(50),
    write_inactivity_timeout: Some(80),
    max_resolve_results: 4,
};

fn effects(engine: &mut TcpEngine) -> Vec<TcpEffect> {
    engine.take_effects().items
}

fn report(slot: u64) -> TcpReport {
    TcpReport {
        slot,
        read_allowance: 10,
        send_occupancy: 0,
        outbound_empty: true,
        finish_requested: false,
        write_finished: false,
        released: false,
    }
}

fn event(slot: u64, kind: TcpEventKind) -> TcpEvent {
    TcpEvent {
        report: report(slot),
        kind,
    }
}

fn failure(kind: NativeFailureKind, connection_reset: bool) -> TcpEventKind {
    TcpEventKind::Failed(NativeFailure {
        kind,
        message: "it broke".to_string(),
        connection_reset,
    })
}

fn literal() -> TcpConnectTarget {
    TcpConnectTarget::Literal(Endpoint {
        host: b"192.0.2.1".to_vec(),
        port: 9000,
    })
}

fn hostname() -> TcpConnectTarget {
    TcpConnectTarget::Hostname {
        name: b"example.test".to_vec(),
        port: 9000,
    }
}

fn live() -> (TcpEngine, u64) {
    let mut engine = TcpEngine::new(true);
    engine.submit_tcp_connect(PURPOSE, literal(), None, 0, 0);
    let asked = effects(&mut engine);
    let [TcpEffect::Connect { slot, .. }] = asked.as_slice() else {
        panic!("expected a connection, got {asked:?}");
    };
    let slot = *slot;
    engine.handle_standalone_event(
        event(slot, TcpEventKind::Connected { wanted: true }),
        false,
        0,
    );
    effects(&mut engine);
    (engine, slot)
}

fn the_failure(asked: &[TcpEffect]) -> &Error {
    asked
        .iter()
        .find_map(|effect| match effect {
            TcpEffect::Fail { id: 7, error } => Some(error),
            _ => None,
        })
        .expect("the owner must be told")
}

#[test]
fn a_literal_address_is_connected_at_once() {
    let mut engine = TcpEngine::new(false);
    engine.submit_tcp_connect(PURPOSE, literal(), Some(30), 10, 10);
    let asked = effects(&mut engine);
    assert!(
        matches!(
            asked.as_slice(),
            [TcpEffect::Connect {
                endpoint: Endpoint { port: 9000, .. },
                deadline: Some(40),
                send_window: 100,
                receive_window: 200,
                ..
            }]
        ),
        "{asked:?}"
    );
    assert!(engine.wants_poll_without_requests());
}

#[test]
fn a_connection_becomes_live_with_its_deadlines() {
    let mut engine = TcpEngine::new(false);
    engine.submit_tcp_connect(PURPOSE, literal(), Some(30), 0, 0);
    effects(&mut engine);
    engine.handle_standalone_event(event(1, TcpEventKind::Connected { wanted: true }), false, 5);
    assert!(matches!(
        effects(&mut engine).as_slice(),
        [
            TcpEffect::SetReadAllowance { allowance: 10, .. },
            TcpEffect::SetDeadline {
                deadline: Some(55),
                ..
            }
        ]
    ));

    let mut unwanted = TcpEngine::new(false);
    unwanted.submit_tcp_connect(PURPOSE, literal(), None, 0, 0);
    effects(&mut unwanted);
    unwanted.handle_standalone_event(
        event(1, TcpEventKind::Connected { wanted: false }),
        false,
        5,
    );
    assert!(matches!(
        effects(&mut unwanted).as_slice(),
        [TcpEffect::Close { slot: 1 }]
    ));
}

#[test]
fn addresses_are_tried_one_after_another() {
    let mut engine = TcpEngine::new(true);
    engine.submit_tcp_connect(PURPOSE, hostname(), Some(100), 0, 0);
    let asked = effects(&mut engine);
    let [TcpEffect::Locate { key, query }] = asked.as_slice() else {
        panic!("expected a lookup, got {asked:?}");
    };
    assert_eq!(query.host, b"example.test");
    assert_eq!(query.family, AddressFamily::Both);
    assert_eq!(query.order, AddressOrder::Ipv4ThenIpv6);
    assert_eq!(query.cache_mode, CacheMode::Use);
    assert_eq!(query.max_results, 4);
    assert!(!query.expand_search);
    engine.finish_standalone_resolve(
        *key,
        TcpLookup::Answer(vec![b"192.0.2.1".to_vec(), b"192.0.2.2".to_vec()]),
        1,
    );
    let asked = effects(&mut engine);
    assert!(
        matches!(
            asked.as_slice(),
            [TcpEffect::Connect { slot: 1, endpoint, .. }] if endpoint.host == b"192.0.2.1"
        ),
        "{asked:?}"
    );
    engine.handle_standalone_event(
        event(1, failure(NativeFailureKind::Connect, false)),
        true,
        2,
    );
    let asked = effects(&mut engine);
    assert!(
        matches!(
            asked.as_slice(),
            [TcpEffect::Connect { slot: 2, endpoint, deadline: Some(100), .. }]
                if endpoint.host == b"192.0.2.2" && endpoint.port == 9000
        ),
        "{asked:?}"
    );
    engine.handle_standalone_event(
        event(2, failure(NativeFailureKind::Connect, false)),
        true,
        3,
    );
    let asked = effects(&mut engine);
    assert_eq!(
        the_failure(&asked).transport_stage(),
        Some(TransportStage::Connect)
    );
    assert!(!engine.wants_poll_without_requests());
}

#[test]
fn lookups_that_lead_nowhere_are_told_apart() {
    for (outcome, message) in [
        (
            TcpLookup::Answer(Vec::new()),
            "the standalone TCP hostname resolved without a usable address",
        ),
        (
            TcpLookup::NameNotFound,
            "the standalone TCP hostname does not exist",
        ),
        (
            TcpLookup::NoData,
            "the standalone TCP hostname has no usable address data",
        ),
        (
            TcpLookup::Failed(Error::transport(TransportStage::Dns, "server failure")),
            "server failure",
        ),
    ] {
        let mut engine = TcpEngine::new(true);
        engine.submit_tcp_connect(PURPOSE, hostname(), None, 0, 0);
        effects(&mut engine);
        engine.finish_standalone_resolve(1, outcome, 1);
        let asked = effects(&mut engine);
        assert_eq!(the_failure(&asked).message(), message);
    }

    let mut abandoned = TcpEngine::new(true);
    abandoned.submit_tcp_connect(PURPOSE, hostname(), None, 0, 0);
    effects(&mut abandoned);
    abandoned.finish_standalone_resolve(1, TcpLookup::Abandoned, 1);
    assert!(effects(&mut abandoned).is_empty());

    let mut without = TcpEngine::new(false);
    without.submit_tcp_connect(PURPOSE, hostname(), None, 0, 0);
    let asked = effects(&mut without);
    assert_eq!(the_failure(&asked).kind(), ErrorKind::Unsupported);
}

#[test]
fn connecting_takes_only_so_long() {
    let expected = standalone_connect_timeout();
    assert_eq!(expected.timeout_kind(), Some(TimeoutKind::Connect));

    let mut late = TcpEngine::new(true);
    late.submit_tcp_connect(PURPOSE, literal(), Some(5), 0, 5);
    assert_eq!(the_failure(&effects(&mut late)), &expected);
    late.submit_tcp_connect(PURPOSE, hostname(), Some(5), 0, 5);
    assert_eq!(the_failure(&effects(&mut late)), &expected);

    let mut looking = TcpEngine::new(true);
    looking.submit_tcp_connect(PURPOSE, hostname(), Some(5), 0, 0);
    effects(&mut looking);
    looking.expire_standalone_resolves(4);
    assert!(effects(&mut looking).is_empty());
    looking.expire_standalone_resolves(5);
    let asked = effects(&mut looking);
    assert!(matches!(asked[0], TcpEffect::CancelLocate { key: 1 }));
    assert_eq!(the_failure(&asked), &expected);

    let mut answered = TcpEngine::new(true);
    answered.submit_tcp_connect(PURPOSE, hostname(), Some(5), 0, 0);
    effects(&mut answered);
    answered.finish_standalone_resolve(1, TcpLookup::Answer(vec![b"192.0.2.1".to_vec()]), 5);
    assert_eq!(the_failure(&effects(&mut answered)), &expected);

    let mut connecting = TcpEngine::new(true);
    connecting.submit_tcp_connect(PURPOSE, literal(), Some(5), 0, 0);
    effects(&mut connecting);
    connecting.handle_standalone_event(event(1, TcpEventKind::DeadlineExpired), false, 5);
    let asked = effects(&mut connecting);
    assert_eq!(the_failure(&asked), &expected);
    assert!(matches!(asked[1], TcpEffect::Close { slot: 1 }));
}

#[test]
fn inactivity_follows_the_buffers() {
    let mut tcp = StandaloneTcp::new(1, Some(50), Some(80), 0);
    assert_eq!(tcp.next_deadline(), Some(50));
    tcp.sync_pressure(0, 0, 10);
    assert_eq!(tcp.next_deadline(), None);
    tcp.note_read_progress(20);
    assert_eq!(tcp.next_deadline(), None, "reading stays paused");
    tcp.sync_pressure(5, 3, 30);
    assert_eq!(tcp.read_inactivity_deadline, Some(80));
    assert_eq!(tcp.write_inactivity_deadline, Some(110));
    tcp.sync_pressure(5, 3, 40);
    assert_eq!(tcp.next_deadline(), Some(80), "nothing changed");
    assert_eq!(tcp.expired(79), None);
    assert_eq!(tcp.expired(80), Some(StandaloneInactivity::Read));
    tcp.note_read_progress(70);
    assert_eq!(tcp.expired(110), Some(StandaloneInactivity::Write));
    tcp.note_write_progress(2, 100);
    assert_eq!(tcp.write_inactivity_deadline, Some(180));
    tcp.note_write_progress(0, 120);
    assert_eq!(tcp.write_inactivity_deadline, None);
    tcp.note_peer_closed();
    assert_eq!(tcp.next_deadline(), None);
}

#[test]
fn a_live_connection_ends_by_inactivity() {
    let (mut engine, slot) = live();
    engine.handle_standalone_event(event(slot, TcpEventKind::DeadlineExpired), false, 49);
    assert!(matches!(
        effects(&mut engine).as_slice(),
        [TcpEffect::SetDeadline {
            deadline: Some(50),
            ..
        }]
    ));
    engine.handle_standalone_event(event(slot, TcpEventKind::DeadlineExpired), false, 50);
    let asked = effects(&mut engine);
    let error = the_failure(&asked);
    assert_eq!(error.timeout_kind(), Some(TimeoutKind::Inactivity));
    assert_eq!(
        error.message(),
        "the standalone TCP read inactivity timeout expired"
    );
    assert!(matches!(asked[1], TcpEffect::Close { .. }));
}

#[test]
fn progress_and_refusals_reach_a_live_connection() {
    let (mut engine, slot) = live();
    engine.process_events(
        VecDeque::from(vec![
            event(slot, TcpEventKind::Data { refused: None }),
            event(slot, TcpEventKind::WriteProgress),
            event(slot, TcpEventKind::WriteDrained),
            event(slot, TcpEventKind::PeerClosed),
        ]),
        10,
    );
    let asked = effects(&mut engine);
    assert!(
        matches!(
            asked.as_slice(),
            [
                TcpEffect::SetDeadline {
                    deadline: Some(60),
                    ..
                },
                TcpEffect::SetDeadline {
                    deadline: Some(60),
                    ..
                },
                TcpEffect::SetDeadline {
                    deadline: Some(60),
                    ..
                },
                TcpEffect::SetDeadline { deadline: None, .. }
            ]
        ),
        "{asked:?}"
    );
    engine.handle_standalone_event(
        event(
            slot,
            TcpEventKind::Data {
                refused: Some(Error::new(ErrorKind::Internal, "no room")),
            },
        ),
        false,
        11,
    );
    assert_eq!(the_failure(&effects(&mut engine)).message(), "no room");
}

#[test]
fn a_failure_dominates_the_batch_of_a_live_connection() {
    let (mut engine, slot) = live();
    engine.process_events(
        VecDeque::from(vec![
            event(slot, TcpEventKind::WriteProgress),
            event(slot, failure(NativeFailureKind::Read, true)),
        ]),
        10,
    );
    assert!(matches!(
        effects(&mut engine).as_slice(),
        [TcpEffect::Reset { id: 7 }]
    ));

    let (mut engine, slot) = live();
    engine.process_events(
        VecDeque::from(vec![
            event(slot, TcpEventKind::DeadlineExpired),
            event(slot, failure(NativeFailureKind::Write, false)),
        ]),
        100,
    );
    let asked = effects(&mut engine);
    assert_eq!(asked.len(), 1);
    assert_eq!(
        the_failure(&asked).transport_stage(),
        Some(TransportStage::Send)
    );
}

#[test]
fn a_live_connection_is_looked_at_again() {
    let (mut engine, slot) = live();
    engine.resume_standalone_tcp(
        &[TcpReport {
            read_allowance: 0,
            send_occupancy: 5,
            finish_requested: true,
            ..report(slot)
        }],
        10,
    );
    assert!(matches!(
        effects(&mut engine).as_slice(),
        [
            TcpEffect::SetReadAllowance { allowance: 0, .. },
            TcpEffect::SetDeadline {
                deadline: Some(90),
                ..
            }
        ]
    ));
    engine.resume_standalone_tcp(
        &[TcpReport {
            finish_requested: true,
            ..report(slot)
        }],
        20,
    );
    assert!(matches!(
        effects(&mut engine).as_slice(),
        [
            TcpEffect::SetReadAllowance { allowance: 10, .. },
            TcpEffect::ShutdownWrite { .. },
            TcpEffect::SetDeadline {
                deadline: Some(70),
                ..
            }
        ]
    ));
    engine.resume_standalone_tcp(
        &[TcpReport {
            released: true,
            ..report(slot)
        }],
        30,
    );
    assert!(matches!(
        effects(&mut engine).as_slice(),
        [TcpEffect::Close { .. }]
    ));
    assert!(!engine.wants_poll_without_requests());
}

#[test]
fn connections_are_given_up_however_far_they_got() {
    let mut looking = TcpEngine::new(true);
    looking.submit_tcp_connect(PURPOSE, hostname(), None, 0, 0);
    effects(&mut looking);
    looking.cancel(7);
    assert!(matches!(
        effects(&mut looking).as_slice(),
        [TcpEffect::CancelLocate { key: 1 }]
    ));

    let mut connecting = TcpEngine::new(true);
    connecting.submit_tcp_connect(PURPOSE, literal(), None, 0, 0);
    effects(&mut connecting);
    connecting.cancel(7);
    assert!(matches!(
        effects(&mut connecting).as_slice(),
        [TcpEffect::Close { slot: 1 }]
    ));

    let (mut engine, _) = live();
    engine.cancel(8);
    assert!(effects(&mut engine).is_empty());
    engine.cancel(7);
    assert!(matches!(
        effects(&mut engine).as_slice(),
        [TcpEffect::Cancelled { id: 7 }, TcpEffect::Close { .. }]
    ));

    let (mut engine, _) = live();
    engine.shutdown();
    assert!(!engine.wants_poll_without_requests());
}

fn query() -> LookupQuery {
    LookupQuery {
        host: b"example.test".to_vec(),
        family: AddressFamily::Ipv6,
        order: AddressOrder::Ipv6ThenIpv4,
        cache_mode: CacheMode::Bypass,
        max_results: 3,
        expand_search: true,
    }
}

fn answer() -> ResolveCompletion {
    ResolveCompletion::Completed(ResolveResponse {
        name: b"example.test".to_vec(),
        status: ResolveStatus::Answer,
        addresses: vec![b"192.0.2.1".to_vec()],
        valid_until: Some(60),
        from_cache: false,
        candidate_name: None,
    })
}

#[test]
fn names_are_looked_up_for_their_own_sake() {
    let mut engine = LookupEngine::new(true);
    assert!(engine.submit_resolve(3, query(), Some(10), 0, 0).is_none());
    assert!(engine.wants_poll_without_requests());
    let asked = engine.take_effects().items;
    let [ResolverEffect::Locate { key, query }] = asked.as_slice() else {
        panic!("expected a lookup, got {asked:?}");
    };
    assert_eq!(query.max_results, 3);
    assert!(query.expand_search);
    engine.finish_lookup(*key, answer(), 5);
    engine.finish_lookup(*key, answer(), 6);
    let done = engine.poll_resolves(7).items;
    assert_eq!(done.len(), 1, "a lookup is answered once");
    assert_eq!(done[0].id, 3);
    assert!(matches!(
        &done[0].completion,
        ResolveCompletion::Completed(response) if response.addresses.len() == 1
    ));
    assert!(!engine.wants_poll_without_requests());
}

fn is_total_timeout(completion: &ResolveCompletion) -> bool {
    matches!(
        completion,
        ResolveCompletion::Failed(error)
            if error.timeout_kind() == Some(TimeoutKind::Total)
                && error.message() == "the public resolution total timeout expired"
    )
}

#[test]
fn lookups_take_only_so_long() {
    assert!(is_total_timeout(&public_total_timeout()));
    let mut engine = LookupEngine::new(true);
    let refused = engine
        .submit_resolve(1, query(), Some(5), 0, 5)
        .expect("it is too late already");
    assert!(is_total_timeout(&refused));

    assert!(engine.submit_resolve(2, query(), Some(5), 0, 0).is_none());
    engine.take_effects();
    let done = engine.poll_resolves(5).items;
    assert!(is_total_timeout(&done[0].completion));
    assert!(matches!(
        engine.take_effects().items.as_slice(),
        [ResolverEffect::CancelLocate { key: 1 }]
    ));

    assert!(engine.submit_resolve(3, query(), Some(5), 0, 0).is_none());
    engine.take_effects();
    engine.finish_lookup(2, answer(), 5);
    let done = engine.poll_resolves(5).items;
    assert!(is_total_timeout(&done[0].completion));
}

#[test]
fn lookups_are_refused_and_given_up() {
    let mut without = LookupEngine::new(false);
    assert!(matches!(
        without.submit_resolve(1, query(), None, 0, 0),
        Some(ResolveCompletion::Failed(error)) if error.kind() == ErrorKind::Unsupported
    ));

    let mut engine = LookupEngine::new(true);
    assert!(engine.submit_resolve(1, query(), None, 0, 0).is_none());
    assert!(engine.submit_resolve(2, query(), None, 0, 0).is_none());
    engine.take_effects();
    engine.cancel(2);
    engine.cancel(9);
    assert!(matches!(
        engine.take_effects().items.as_slice(),
        [ResolverEffect::CancelLocate { key: 2 }]
    ));
    engine.shutdown();
    assert!(!engine.wants_poll_without_requests());
    assert!(engine.poll_resolves(1).items.is_empty());
}
