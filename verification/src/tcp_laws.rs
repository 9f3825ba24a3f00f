//! What holds of every TCP connection that carries no HTTP: when its clocks run, and what runs out.

use crate::control::lemma_first_number_is;
use crate::deadline::{due, is_past, passed_kind, sooner};
use crate::failure::standalone_connect_expired;
use crate::pool_laws::lemma_filter_first;
use crate::standalone::{pressure_synced, tcp_ok, StandaloneTcp};
use crate::table::{found, holds, lemma_added, lemma_position, lemma_without_id, without_id};
use crate::tcp::{
    asked, attempt_started, connect_submitted, failed, lemma_live_added, lemma_live_taken,
    lemma_pending_added, lemma_pending_taken, tcp_engine_ok, tcp_located, tcp_lookups_expired,
    AttemptView, StandaloneResolve, TargetView, TcpEffectView, TcpLookupView, TcpPurpose, TcpView,
};
use crate::tcp_events::{
    attempt_owners, live_event, live_owners, lookup_owners, tcp_cancelled, tcp_event_handled,
    tcp_owns, tcp_resumed, TcpEventKindView, TcpEventView, TcpReport,
};
use crate::types::{
    plain_error, timeout_error, transport_error, ErrorKind, ErrorView, TimeoutKind, TransportStage,
};
use vstd::prelude::*;
use vstd::string::*;

verus! {

/// `deadline` is a timeout after `now`; there is none without a timeout, nor past the end of time.
pub open spec fn falls_due(deadline: Option<u64>, now: u64, timeout: Option<u64>) -> bool {
    match timeout {
        None => deadline is None,
        Some(length) => if now + length <= u64::MAX {
            deadline matches Some(at) && at == now + length
        } else {
            deadline is None
        },
    }
}

/// A deadline is its timeout after the moment that it counts from, it has passed from that moment on,
/// and of two deadlines the one that passes first counts.
pub proof fn lemma_deadlines_are_sums(
    now: u64,
    timeout: Option<u64>,
    left: Option<u64>,
    right: Option<u64>,
    later: u64,
)
    ensures
        falls_due(due(now, timeout), now, timeout),
        is_past(left, later) <==> (left is Some && left->0 <= later),
        is_past(sooner(left, right), later) <==> is_past(left, later) || is_past(right, later),
        sooner(left, right) is None <==> left is None && right is None,
        sooner(left, right) is Some ==> sooner(left, right) == left || sooner(left, right) == right,
{
}

/// What is reported as the reason is a deadline that has passed; the total one is named before the
/// connect one, and that before the one on inactivity.
pub proof fn lemma_the_weightiest_deadline_is_named(
    total: Option<u64>,
    connect: Option<u64>,
    inactivity: Option<u64>,
    now: u64,
)
    ensures
        passed_kind(total, connect, inactivity, now) is Total <==> (total is Some && total->0 <= now),
        passed_kind(total, connect, inactivity, now) is Connect <==> !(total is Some && total->0
            <= now) && connect is Some && connect->0 <= now,
        passed_kind(total, connect, inactivity, now) is Inactivity <==> !(total is Some && total->0
            <= now) && !(connect is Some && connect->0 <= now) && inactivity is Some && inactivity->0
            <= now,
{
}


proof fn lemma_back_in_place(engine: TcpView, slot: u64, tcp: StandaloneTcp, other: u64)
    requires
        tcp_engine_ok(engine),
        holds(engine.live, slot),
        tcp_ok(tcp),
    ensures
        ({
            let live = without_id(engine.live, slot).push((slot, tcp));
            &&& holds(live, slot)
            &&& found(live, slot) == tcp
            &&& other != slot ==> holds(live, other) == holds(engine.live, other)
            &&& other != slot && holds(engine.live, other) ==> found(live, other) == found(
                engine.live,
                other,
            )
            &&& tcp_engine_ok(TcpView { live, ..engine })
        }),
{
    lemma_live_taken(engine, slot);
    let taken = TcpView { live: without_id(engine.live, slot), ..engine };
    lemma_without_id(engine.live, slot, other);
    lemma_added(taken.live, slot, tcp, other);
    lemma_live_added(taken, slot, tcp);
}

/// Progress in writing restarts the clock on writing: with output still waiting, the deadline is the
/// write timeout after the report; with none, there is no deadline. Nothing else of the connection
/// changes, and the socket layer is told, unless the connection is known to have failed.
pub proof fn lemma_write_progress_restarts_the_clock(
    engine: TcpView,
    event: TcpEventView,
    fails_in_batch: bool,
    now: u64,
)
    requires
        tcp_engine_ok(engine),
        holds(engine.live, event.report.slot),
        event.kind is WriteProgress || event.kind is WriteDrained,
    ensures
        ({
            let slot = event.report.slot;
            let before = found(engine.live, slot);
            let next = tcp_event_handled(engine, event, fails_in_batch, now);
            let after = found(next.live, slot);
            &&& holds(next.live, slot)
            &&& event.report.send_occupancy != 0 ==> falls_due(
                after.write_inactivity_deadline,
                now,
                before.write_inactivity_timeout,
            )
            &&& event.report.send_occupancy == 0 ==> after.write_inactivity_deadline is None
            &&& after == (StandaloneTcp {
                write_inactivity_active: event.report.send_occupancy != 0,
                write_inactivity_deadline: after.write_inactivity_deadline,
                ..before
            })
            &&& fails_in_batch ==> next.effects == engine.effects
            &&& !fails_in_batch ==> next.effects == engine.effects.push(
                TcpEffectView::SetDeadline {
                    slot,
                    deadline: sooner(
                        after.read_inactivity_deadline,
                        after.write_inactivity_deadline,
                    ),
                },
            )
        }),
{
    let slot = event.report.slot;
    let before = found(engine.live, slot);
    lemma_live_taken(engine, slot);
    let waiting = event.report.send_occupancy != 0;
    let tcp = StandaloneTcp {
        write_inactivity_active: waiting,
        write_inactivity_deadline: if waiting {
            due(now, before.write_inactivity_timeout)
        } else {
            None
        },
        ..before
    };
    lemma_back_in_place(engine, slot, tcp, slot);
}

/// Bytes that arrive restart the clock on reading: as long as there is room for more, the deadline is
/// the read timeout after the report; without room there is none. The clock on writing starts only
/// where output appeared, and stops where none is left.
pub proof fn lemma_arrival_restarts_the_clock(
    engine: TcpView,
    event: TcpEventView,
    fails_in_batch: bool,
    now: u64,
)
    requires
        tcp_engine_ok(engine),
        holds(engine.live, event.report.slot),
        event.kind matches TcpEventKindView::Data { refused } && refused is None,
    ensures
        ({
            let slot = event.report.slot;
            let before = found(engine.live, slot);
            let next = tcp_event_handled(engine, event, fails_in_batch, now);
            let after = found(next.live, slot);
            &&& holds(next.live, slot)
            &&& event.report.read_allowance == 0 ==> after.read_inactivity_deadline is None
            &&& event.report.read_allowance != 0 ==> falls_due(
                after.read_inactivity_deadline,
                now,
                before.read_inactivity_timeout,
            )
            &&& event.report.send_occupancy == 0 ==> after.write_inactivity_deadline is None
            &&& event.report.send_occupancy != 0 && before.write_inactivity_active
                ==> after.write_inactivity_deadline == before.write_inactivity_deadline
            &&& event.report.send_occupancy != 0 && !before.write_inactivity_active ==> falls_due(
                after.write_inactivity_deadline,
                now,
                before.write_inactivity_timeout,
            )
            &&& after.request_id == before.request_id
            &&& after.read_inactivity_timeout == before.read_inactivity_timeout
            &&& after.write_inactivity_timeout == before.write_inactivity_timeout
            &&& after.read_inactivity_paused == (event.report.read_allowance == 0)
            &&& after.write_inactivity_active == (event.report.send_occupancy != 0)
            &&& !fails_in_batch ==> next.effects == engine.effects.push(
                TcpEffectView::SetDeadline {
                    slot,
                    deadline: sooner(
                        after.read_inactivity_deadline,
                        after.write_inactivity_deadline,
                    ),
                },
            )
        }),
{
    let slot = event.report.slot;
    let before = found(engine.live, slot);
    lemma_live_taken(engine, slot);
    let tcp = pressure_synced(
        crate::standalone::read_progressed(before, now),
        event.report.read_allowance,
        event.report.send_occupancy,
        now,
    );
    lemma_back_in_place(engine, slot, tcp, slot);
}

/// Once the peer has closed its side, reading has no clock any more; writing keeps its own.
pub proof fn lemma_closed_peer_stops_the_read_clock(
    engine: TcpView,
    event: TcpEventView,
    fails_in_batch: bool,
    now: u64,
)
    requires
        tcp_engine_ok(engine),
        holds(engine.live, event.report.slot),
        event.kind is PeerClosed,
    ensures
        ({
            let slot = event.report.slot;
            let before = found(engine.live, slot);
            let next = tcp_event_handled(engine, event, fails_in_batch, now);
            &&& holds(next.live, slot)
            &&& found(next.live, slot) == (StandaloneTcp {
                read_inactivity_paused: true,
                read_inactivity_deadline: None,
                ..before
            })
            &&& !fails_in_batch ==> next.effects == engine.effects.push(
                TcpEffectView::SetDeadline { slot, deadline: before.write_inactivity_deadline },
            )
        }),
{
    let slot = event.report.slot;
    let before = found(engine.live, slot);
    lemma_live_taken(engine, slot);
    let tcp = StandaloneTcp {
        read_inactivity_paused: true,
        read_inactivity_deadline: None,
        ..before
    };
    lemma_back_in_place(engine, slot, tcp, slot);
}

/// The error of a connection on which nothing was read for too long.
pub open spec fn read_too_long() -> ErrorView {
    timeout_error(
        TimeoutKind::Inactivity,
        "the standalone TCP read inactivity timeout expired"@,
    )
}

/// The error of a connection on which nothing was written for too long.
pub open spec fn write_too_long() -> ErrorView {
    timeout_error(
        TimeoutKind::Inactivity,
        "the standalone TCP write inactivity timeout expired"@,
    )
}

proof fn lemma_directions_are_told_apart()
    ensures
        read_too_long() != write_too_long(),
{
    reveal_strlit("the standalone TCP read inactivity timeout expired");
    reveal_strlit("the standalone TCP write inactivity timeout expired");
    assert("the standalone TCP read inactivity timeout expired"@.len() == 50);
    assert("the standalone TCP write inactivity timeout expired"@.len() == 51);
}

/// A clock that ran out ends the connection with the error of its direction, reading first, and the
/// socket is closed. Where neither ran out, the connection lives on and its deadline is set again.
pub proof fn lemma_only_a_passed_deadline_ends_a_connection(
    engine: TcpView,
    event: TcpEventView,
    now: u64,
)
    requires
        tcp_engine_ok(engine),
        holds(engine.live, event.report.slot),
        event.kind is DeadlineExpired,
    ensures
        ({
            let slot = event.report.slot;
            let before = found(engine.live, slot);
            let next = tcp_event_handled(engine, event, false, now);
            let read_passed = before.read_inactivity_deadline is Some
                && before.read_inactivity_deadline->0 <= now;
            let write_passed = before.write_inactivity_deadline is Some
                && before.write_inactivity_deadline->0 <= now;
            &&& read_passed ==> next.effects == engine.effects.push(
                TcpEffectView::Fail { id: before.request_id, error: read_too_long() },
            ).push(TcpEffectView::Close { slot }) && !holds(next.live, slot)
            &&& !read_passed && write_passed ==> next.effects == engine.effects.push(
                TcpEffectView::Fail { id: before.request_id, error: write_too_long() },
            ).push(TcpEffectView::Close { slot }) && !holds(next.live, slot)
            &&& !read_passed && !write_passed ==> holds(next.live, slot) && found(next.live, slot)
                == before && next.effects == engine.effects.push(
                TcpEffectView::SetDeadline {
                    slot,
                    deadline: sooner(
                        before.read_inactivity_deadline,
                        before.write_inactivity_deadline,
                    ),
                },
            )
        }),
{
    let slot = event.report.slot;
    lemma_live_taken(engine, slot);
    lemma_back_in_place(engine, slot, found(engine.live, slot), slot);
}

/// A connection that failed is gone, and its owner learns so: of a reset as such, of anything else by
/// its error.
pub proof fn lemma_failed_connections_are_reported(
    engine: TcpView,
    event: TcpEventView,
    fails_in_batch: bool,
    now: u64,
)
    requires
        tcp_engine_ok(engine),
        holds(engine.live, event.report.slot),
        event.kind is Failed,
    ensures
        ({
            let slot = event.report.slot;
            let before = found(engine.live, slot);
            let next = tcp_event_handled(engine, event, fails_in_batch, now);
            let failure = event.kind->Failed_0;
            &&& !holds(next.live, slot)
            &&& failure.connection_reset ==> next.effects == engine.effects.push(
                TcpEffectView::Reset { id: before.request_id },
            )
            &&& !failure.connection_reset ==> next.effects.len() == engine.effects.len() + 1
                && next.effects.drop_last() == engine.effects && (next.effects.last() matches TcpEffectView::Fail {
                id,
                ..
            } && id == before.request_id)
        }),
{
    let slot = event.report.slot;
    lemma_live_taken(engine, slot);
    let next = tcp_event_handled(engine, event, fails_in_batch, now);
    assert(next.effects.drop_last() =~= engine.effects);
}

/// A connection that stands is live from then on: the clock on reading starts, the one on writing does
/// not, and the socket layer is told how much may be read.
pub proof fn lemma_new_connection_starts_reading(
    engine: TcpView,
    event: TcpEventView,
    now: u64,
)
    requires
        tcp_engine_ok(engine),
        holds(engine.pending, event.report.slot),
        event.kind matches TcpEventKindView::Connected { wanted } && wanted,
    ensures
        ({
            let slot = event.report.slot;
            let purpose = found(engine.pending, slot).purpose;
            let next = tcp_event_handled(engine, event, false, now);
            let tcp = found(next.live, slot);
            &&& holds(next.live, slot)
            &&& !holds(next.pending, slot)
            &&& tcp.request_id == purpose.request_id
            &&& tcp.read_inactivity_timeout == purpose.read_inactivity_timeout
            &&& tcp.write_inactivity_timeout == purpose.write_inactivity_timeout
            &&& falls_due(tcp.read_inactivity_deadline, now, purpose.read_inactivity_timeout)
            &&& tcp.write_inactivity_deadline is None
            &&& next.effects == engine.effects.push(
                TcpEffectView::SetReadAllowance { slot, allowance: event.report.read_allowance },
            ).push(
                TcpEffectView::SetDeadline { slot, deadline: tcp.read_inactivity_deadline },
            )
        }),
{
    let slot = event.report.slot;
    lemma_pending_taken(engine, slot);
    lemma_added(
        engine.live,
        slot,
        crate::standalone::fresh_tcp(
            found(engine.pending, slot).purpose.request_id,
            found(engine.pending, slot).purpose.read_inactivity_timeout,
            found(engine.pending, slot).purpose.write_inactivity_timeout,
            now,
        ),
        slot,
    );
}

proof fn lemma_attempt_start_leaves_the_rest(engine: TcpView, attempt: AttemptView, now: u64)
    requires
        tcp_engine_ok(engine),
    ensures
        tcp_engine_ok(attempt_started(engine, attempt, now)),
        attempt_started(engine, attempt, now).live == engine.live,
        attempt_started(engine, attempt, now).next_slot >= engine.next_slot,
        forall|slot: u64|
            slot < engine.next_slot ==> holds(
                attempt_started(engine, attempt, now).pending,
                slot,
            ) == #[trigger] holds(engine.pending, slot),
{
    reveal(attempt_started);
    let slot = engine.next_slot;
    let next = attempt_started(engine, attempt, now);
    lemma_position(engine.pending, slot);
    lemma_position(engine.live, slot);
    let added = AttemptView { remaining: attempt.remaining.remove(0), ..attempt };
    if next.pending != engine.pending {
        assert forall|other: u64| other < slot implies holds(next.pending, other)
            == #[trigger] holds(engine.pending, other) by {
            lemma_added(engine.pending, slot, added, other);
        }
        lemma_added(engine.pending, slot, added, slot);
    }
}

/// Something that happened, and when.
pub struct TcpMoment {
    pub event: TcpEventView,
    pub fails_in_batch: bool,
    pub now: u64,
}

/// The engine after one thing after another happened.
pub open spec fn tcp_lived(engine: TcpView, moments: Seq<TcpMoment>) -> TcpView
    decreases moments.len(),
{
    if moments.len() == 0 {
        engine
    } else {
        let last = moments.last();
        tcp_event_handled(
            tcp_lived(engine, moments.drop_last()),
            last.event,
            last.fails_in_batch,
            last.now,
        )
    }
}

/// While a connection lives, it keeps its write timeout, and its clock on writing does not run out
/// before some moment.
spec fn writes_until(engine: TcpView, slot: u64, timeout: u64, until: int) -> bool {
    &&& tcp_engine_ok(engine)
    &&& slot < engine.next_slot
    &&& !holds(engine.pending, slot)
    &&& holds(engine.live, slot) ==> {
        let tcp = found(engine.live, slot);
        &&& tcp.write_inactivity_timeout == Some(timeout)
        &&& tcp.write_inactivity_deadline matches Some(at) ==> at >= until
    }
}

/// While a connection lives, it keeps its read timeout, and its clock on reading does not run out
/// before some moment.
spec fn reads_until(engine: TcpView, slot: u64, timeout: u64, until: int) -> bool {
    &&& tcp_engine_ok(engine)
    &&& slot < engine.next_slot
    &&& !holds(engine.pending, slot)
    &&& holds(engine.live, slot) ==> {
        let tcp = found(engine.live, slot);
        &&& tcp.read_inactivity_timeout == Some(timeout)
        &&& tcp.read_inactivity_deadline matches Some(at) ==> at >= until
    }
}

proof fn lemma_live_event_shape(engine: TcpView, event: TcpEventView, armed: bool, now: u64) -> (tcp:
    StandaloneTcp)
    requires
        tcp_engine_ok(engine),
        holds(engine.live, event.report.slot),
    ensures
        ({
            let slot = event.report.slot;
            let before = found(engine.live, slot);
            let taken = TcpView { live: without_id(engine.live, slot), ..engine };
            let next = live_event(taken, before, event, armed, now);
            &&& tcp_ok(tcp)
            &&& next.live == taken.live || next.live == taken.live.push((slot, tcp))
            &&& next.pending == engine.pending
            &&& next.lookups == engine.lookups
            &&& next.next_slot == engine.next_slot
            &&& next.next_resolve_key == engine.next_resolve_key
            &&& tcp.write_inactivity_timeout == before.write_inactivity_timeout
            &&& tcp.read_inactivity_timeout == before.read_inactivity_timeout
            &&& tcp.write_inactivity_deadline == before.write_inactivity_deadline
                || tcp.write_inactivity_deadline is None || tcp.write_inactivity_deadline == due(
                now,
                before.write_inactivity_timeout,
            )
            &&& tcp.read_inactivity_deadline == before.read_inactivity_deadline
                || tcp.read_inactivity_deadline is None || tcp.read_inactivity_deadline == due(
                now,
                before.read_inactivity_timeout,
            )
        }),
{
    let slot = event.report.slot;
    lemma_live_taken(engine, slot);
    let before = found(engine.live, slot);
    let taken = TcpView { live: without_id(engine.live, slot), ..engine };
    let next = live_event(taken, before, event, armed, now);
    if next.live.len() > taken.live.len() {
        assert(next.live.last().0 == slot);
        next.live.last().1
    } else {
        before
    }
}

proof fn lemma_event_keeps_the_rest(
    engine: TcpView,
    event: TcpEventView,
    fails_in_batch: bool,
    now: u64,
    other: u64,
)
    requires
        tcp_engine_ok(engine),
    ensures
        ({
            let next = tcp_event_handled(engine, event, fails_in_batch, now);
            &&& tcp_engine_ok(next)
            &&& next.next_slot >= engine.next_slot
            &&& other != event.report.slot ==> holds(next.live, other) == holds(engine.live, other)
            &&& other != event.report.slot && holds(engine.live, other) ==> found(next.live, other)
                == found(engine.live, other)
            &&& other < engine.next_slot && !holds(engine.pending, other) ==> !holds(
                next.pending,
                other,
            )
        }),
{
    let slot = event.report.slot;
    let next = tcp_event_handled(engine, event, fails_in_batch, now);
    lemma_pending_taken(engine, slot);
    lemma_live_taken(engine, slot);
    lemma_without_id(engine.pending, slot, other);
    if fails_in_batch && (event.kind is Connected || event.kind is DeadlineExpired) {
    } else if holds(engine.pending, slot) {
        let attempt = found(engine.pending, slot);
        let taken = TcpView { pending: without_id(engine.pending, slot), ..engine };
        match event.kind {
            TcpEventKindView::Connected { wanted } => {
                if wanted {
                    let tcp = crate::standalone::fresh_tcp(
                        attempt.purpose.request_id,
                        attempt.purpose.read_inactivity_timeout,
                        attempt.purpose.write_inactivity_timeout,
                        now,
                    );
                    lemma_live_added(taken, slot, tcp);
                    lemma_added(taken.live, slot, tcp, other);
                }
            },
            TcpEventKindView::Failed(_) => {
                lemma_attempt_start_leaves_the_rest(taken, attempt, now);
                assert(holds(taken.pending, other) == holds(taken.pending, other));
            },
            TcpEventKindView::DeadlineExpired => {},
            _ => {
                lemma_pending_added(taken, slot, attempt);
                lemma_added(taken.pending, slot, attempt, other);
            },
        }
    } else if holds(engine.live, slot) {
        let taken = TcpView { live: without_id(engine.live, slot), ..engine };
        let tcp = lemma_live_event_shape(engine, event, !fails_in_batch, now);
        lemma_without_id(engine.live, slot, other);
        lemma_back_in_place(engine, slot, tcp, other);
        assert(next == TcpView { live: next.live, effects: next.effects, ..engine });
    }
}

/// What happens on one connection is nothing to any other: the others live on, with their clocks as
/// they were.
pub proof fn lemma_connections_do_not_disturb_each_other(
    engine: TcpView,
    event: TcpEventView,
    fails_in_batch: bool,
    now: u64,
    other: u64,
)
    requires
        tcp_engine_ok(engine),
        other != event.report.slot,
    ensures
        holds(tcp_event_handled(engine, event, fails_in_batch, now).live, other) == holds(
            engine.live,
            other,
        ),
        holds(engine.live, other) ==> found(
            tcp_event_handled(engine, event, fails_in_batch, now).live,
            other,
        ) == found(engine.live, other),
{
    lemma_event_keeps_the_rest(engine, event, fails_in_batch, now, other);
}

proof fn lemma_clocks_only_move_on(
    engine: TcpView,
    event: TcpEventView,
    fails_in_batch: bool,
    now: u64,
    slot: u64,
    timeout: u64,
    since: u64,
)
    requires
        now >= since,
    ensures
        writes_until(engine, slot, timeout, since + timeout) ==> writes_until(
            tcp_event_handled(engine, event, fails_in_batch, now),
            slot,
            timeout,
            since + timeout,
        ),
        reads_until(engine, slot, timeout, since + timeout) ==> reads_until(
            tcp_event_handled(engine, event, fails_in_batch, now),
            slot,
            timeout,
            since + timeout,
        ),
{
    if tcp_engine_ok(engine) {
        let next = tcp_event_handled(engine, event, fails_in_batch, now);
        lemma_event_keeps_the_rest(engine, event, fails_in_batch, now, slot);
        if event.report.slot == slot && holds(engine.live, slot) {
            lemma_live_taken(engine, slot);
            if fails_in_batch && (event.kind is Connected || event.kind is DeadlineExpired) {
            } else {
                let tcp = lemma_live_event_shape(engine, event, !fails_in_batch, now);
                lemma_back_in_place(engine, slot, tcp, slot);
            }
        }
    }
}

proof fn lemma_lived_clocks(
    engine: TcpView,
    moments: Seq<TcpMoment>,
    slot: u64,
    timeout: u64,
    since: u64,
)
    requires
        forall|i: int| 0 <= i < moments.len() ==> (#[trigger] moments[i]).now >= since,
    ensures
        writes_until(engine, slot, timeout, since + timeout) ==> writes_until(
            tcp_lived(engine, moments),
            slot,
            timeout,
            since + timeout,
        ),
        reads_until(engine, slot, timeout, since + timeout) ==> reads_until(
            tcp_lived(engine, moments),
            slot,
            timeout,
            since + timeout,
        ),
    decreases moments.len(),
{
    if moments.len() > 0 {
        let earlier = moments.drop_last();
        assert(moments.last() == moments[moments.len() - 1]);
        assert forall|i: int| 0 <= i < earlier.len() implies (#[trigger] earlier[i]).now >= since by {
            assert(earlier[i] == moments[i]);
        }
        lemma_lived_clocks(engine, earlier, slot, timeout, since);
        lemma_clocks_only_move_on(
            tcp_lived(engine, earlier),
            moments.last().event,
            moments.last().fails_in_batch,
            moments.last().now,
            slot,
            timeout,
            since,
        );
    }
}

/// Progress in writing buys the whole timeout: after it was reported, whatever else happens, the
/// connection does not fail for want of writing until the write timeout has run from that report.
pub proof fn lemma_write_progress_buys_the_timeout(
    engine: TcpView,
    progress: TcpEventView,
    fails_in_batch: bool,
    since: u64,
    moments: Seq<TcpMoment>,
    expiry: TcpEventView,
    now: u64,
    timeout: u64,
)
    requires
        tcp_engine_ok(engine),
        holds(engine.live, progress.report.slot),
        progress.kind is WriteProgress || progress.kind is WriteDrained,
        found(engine.live, progress.report.slot).write_inactivity_timeout == Some(timeout),
        forall|i: int| 0 <= i < moments.len() ==> (#[trigger] moments[i]).now >= since,
        expiry.kind is DeadlineExpired,
        expiry.report.slot == progress.report.slot,
    ensures
        ({
            let moved = tcp_event_handled(engine, progress, fails_in_batch, since);
            let before = tcp_lived(moved, moments);
            let after = tcp_event_handled(before, expiry, false, now);
            holds(before.live, expiry.report.slot) && after.effects == before.effects.push(
                TcpEffectView::Fail {
                    id: found(before.live, expiry.report.slot).request_id,
                    error: write_too_long(),
                },
            ).push(TcpEffectView::Close { slot: expiry.report.slot }) ==> now >= since + timeout
        }),
{
    let slot = progress.report.slot;
    let moved = tcp_event_handled(engine, progress, fails_in_batch, since);
    let before = tcp_lived(moved, moments);
    lemma_live_taken(engine, slot);
    lemma_write_progress_restarts_the_clock(engine, progress, fails_in_batch, since);
    lemma_event_keeps_the_rest(engine, progress, fails_in_batch, since, slot);
    assert(writes_until(moved, slot, timeout, since + timeout));
    lemma_lived_clocks(moved, moments, slot, timeout, since);
    if holds(before.live, slot) {
        let after = tcp_event_handled(before, expiry, false, now);
        let id = found(before.live, slot).request_id;
        let failure = TcpEffectView::Fail { id, error: write_too_long() };
        lemma_only_a_passed_deadline_ends_a_connection(before, expiry, now);
        lemma_directions_are_told_apart();
        if after.effects == before.effects.push(failure).push(TcpEffectView::Close { slot }) {
            assert(after.effects[before.effects.len() as int] == failure);
        }
    }
}

/// Bytes that arrive buy the whole timeout: after they were taken, whatever else happens, the
/// connection does not fail for want of reading until the read timeout has run from then.
pub proof fn lemma_arrival_buys_the_timeout(
    engine: TcpView,
    arrival: TcpEventView,
    fails_in_batch: bool,
    since: u64,
    moments: Seq<TcpMoment>,
    expiry: TcpEventView,
    now: u64,
    timeout: u64,
)
    requires
        tcp_engine_ok(engine),
        holds(engine.live, arrival.report.slot),
        arrival.kind matches TcpEventKindView::Data { refused } && refused is None,
        found(engine.live, arrival.report.slot).read_inactivity_timeout == Some(timeout),
        forall|i: int| 0 <= i < moments.len() ==> (#[trigger] moments[i]).now >= since,
        expiry.kind is DeadlineExpired,
        expiry.report.slot == arrival.report.slot,
    ensures
        ({
            let moved = tcp_event_handled(engine, arrival, fails_in_batch, since);
            let before = tcp_lived(moved, moments);
            let after = tcp_event_handled(before, expiry, false, now);
            holds(before.live, expiry.report.slot) && after.effects == before.effects.push(
                TcpEffectView::Fail {
                    id: found(before.live, expiry.report.slot).request_id,
                    error: read_too_long(),
                },
            ).push(TcpEffectView::Close { slot: expiry.report.slot }) ==> now >= since + timeout
        }),
{
    let slot = arrival.report.slot;
    let moved = tcp_event_handled(engine, arrival, fails_in_batch, since);
    let before = tcp_lived(moved, moments);
    lemma_live_taken(engine, slot);
    lemma_arrival_restarts_the_clock(engine, arrival, fails_in_batch, since);
    lemma_event_keeps_the_rest(engine, arrival, fails_in_batch, since, slot);
    assert(reads_until(moved, slot, timeout, since + timeout));
    lemma_lived_clocks(moved, moments, slot, timeout, since);
    if holds(before.live, slot) {
        let after = tcp_event_handled(before, expiry, false, now);
        let id = found(before.live, slot).request_id;
        let failure = TcpEffectView::Fail { id, error: read_too_long() };
        lemma_only_a_passed_deadline_ends_a_connection(before, expiry, now);
        lemma_directions_are_told_apart();
        if after.effects == before.effects.push(failure).push(TcpEffectView::Close { slot }) {
            assert(after.effects[before.effects.len() as int] == failure);
        }
    }
}

/// A look at a connection that its owner let go of closes it. Otherwise its clocks follow the buffers:
/// reading counts while there is room, from the moment that there is again; writing counts while output
/// waits, from the moment that there is some. The peer is told of the end once everything that ever
/// will be written was written.
pub proof fn lemma_clocks_follow_the_buffers(engine: TcpView, report: TcpReport, now: u64)
    requires
        tcp_engine_ok(engine),
        holds(engine.live, report.slot),
    ensures
        ({
            let slot = report.slot;
            let before = found(engine.live, slot);
            let next = tcp_resumed(engine, report, now);
            let after = found(next.live, slot);
            let ends = report.finish_requested && !report.write_finished && report.send_occupancy
                == 0 && report.outbound_empty;
            &&& report.released ==> !holds(next.live, slot) && next.effects == engine.effects.push(
                TcpEffectView::Close { slot },
            )
            &&& !report.released ==> {
                &&& holds(next.live, slot)
                &&& report.read_allowance == 0 ==> after.read_inactivity_deadline is None
                &&& report.read_allowance != 0 && before.read_inactivity_paused ==> falls_due(
                    after.read_inactivity_deadline,
                    now,
                    before.read_inactivity_timeout,
                )
                &&& report.read_allowance != 0 && !before.read_inactivity_paused
                    ==> after.read_inactivity_deadline == before.read_inactivity_deadline
                &&& report.send_occupancy == 0 ==> after.write_inactivity_deadline is None
                &&& report.send_occupancy != 0 && !before.write_inactivity_active ==> falls_due(
                    after.write_inactivity_deadline,
                    now,
                    before.write_inactivity_timeout,
                )
                &&& report.send_occupancy != 0 && before.write_inactivity_active
                    ==> after.write_inactivity_deadline == before.write_inactivity_deadline
                &&& after.request_id == before.request_id
                &&& after.read_inactivity_timeout == before.read_inactivity_timeout
                &&& after.write_inactivity_timeout == before.write_inactivity_timeout
                &&& next.effects.contains(
                    TcpEffectView::SetReadAllowance { slot, allowance: report.read_allowance },
                )
                &&& ends ==> next.effects.contains(TcpEffectView::ShutdownWrite { slot })
                &&& !ends ==> next.effects.len() == engine.effects.len() + 2
                &&& next.effects.last() == (TcpEffectView::SetDeadline {
                    slot,
                    deadline: sooner(
                        after.read_inactivity_deadline,
                        after.write_inactivity_deadline,
                    ),
                })
            }
        }),
{
    let slot = report.slot;
    let before = found(engine.live, slot);
    lemma_live_taken(engine, slot);
    let tcp = pressure_synced(before, report.read_allowance, report.send_occupancy, now);
    lemma_back_in_place(engine, slot, tcp, slot);
    let next = tcp_resumed(engine, report, now);
    if !report.released {
        let count = engine.effects.len() as int;
        assert(next.effects[count] == (TcpEffectView::SetReadAllowance {
            slot,
            allowance: report.read_allowance,
        }));
        if report.finish_requested && !report.write_finished && report.send_occupancy == 0
            && report.outbound_empty {
            assert(next.effects[count + 1] == (TcpEffectView::ShutdownWrite { slot }));
        }
    }
}

/// A wish for an address is tried at once, unless its timeout has passed since it was accepted; all of
/// its limits go along.
pub proof fn lemma_addresses_are_tried_at_once(
    engine: TcpView,
    purpose: TcpPurpose,
    endpoint: (Seq<u8>, u16),
    connect_timeout: Option<u64>,
    accepted_at: u64,
    now: u64,
    deadline: Option<u64>,
)
    requires
        engine.next_slot < u64::MAX,
        falls_due(deadline, accepted_at, connect_timeout),
    ensures
        ({
            let next = connect_submitted(
                engine,
                purpose,
                TargetView::Literal(endpoint),
                connect_timeout,
                accepted_at,
                now,
            );
            &&& deadline is Some && deadline->0 <= now ==> next.pending == engine.pending
                && next.effects == engine.effects.push(
                TcpEffectView::Fail {
                    id: purpose.request_id,
                    error: timeout_error(
                        TimeoutKind::Connect,
                        "the standalone TCP connection-establishment timeout expired"@,
                    ),
                },
            )
            &&& !(deadline is Some && deadline->0 <= now) ==> next.effects == engine.effects.push(
                TcpEffectView::Connect {
                    id: purpose.request_id,
                    slot: engine.next_slot,
                    endpoint,
                    deadline,
                    send_window: purpose.send_window,
                    receive_window: purpose.receive_window,
                },
            )
        }),
{
    reveal(attempt_started);
}

/// An answer with addresses leads to an attempt at the first of them, on the port that was wished for,
/// and the others wait their turn.
pub proof fn lemma_answers_are_tried_in_order(
    engine: TcpView,
    key: u64,
    addresses: Seq<Seq<u8>>,
    now: u64,
)
    requires
        tcp_engine_ok(engine),
        holds(engine.lookups, key),
        addresses.len() > 0,
        engine.next_slot < u64::MAX,
        found(engine.lookups, key).connect_deadline matches Some(at) ==> now < at,
    ensures
        ({
            let lookup = found(engine.lookups, key);
            let slot = engine.next_slot;
            let next = tcp_located(engine, key, TcpLookupView::Answer(addresses), now);
            &&& !holds(next.lookups, key)
            &&& holds(next.pending, slot)
            &&& found(next.pending, slot).connect_deadline == lookup.connect_deadline
            &&& found(next.pending, slot).remaining.len() == addresses.len() - 1
            &&& forall|i: int|
                0 <= i < addresses.len() - 1 ==> #[trigger] found(next.pending, slot).remaining[i]
                    == (addresses[i + 1], lookup.port)
            &&& next.effects == engine.effects.push(
                TcpEffectView::Connect {
                    id: lookup.purpose.request_id,
                    slot,
                    endpoint: (addresses[0], lookup.port),
                    deadline: lookup.connect_deadline,
                    send_window: lookup.purpose.send_window,
                    receive_window: lookup.purpose.receive_window,
                },
            )
        }),
{
    reveal(attempt_started);
    crate::tcp::lemma_lookup_taken(engine, key);
    let lookup = found(engine.lookups, key);
    let slot = engine.next_slot;
    lemma_position(engine.pending, slot);
    let remaining = crate::tcp::endpoints(addresses, lookup.port);
    lemma_added(
        engine.pending,
        slot,
        AttemptView {
            purpose: lookup.purpose,
            remaining: remaining.remove(0),
            connect_deadline: lookup.connect_deadline,
        },
        slot,
    );
}

/// An answer that cannot be used ends the wish with an error that says why; one that comes after the
/// connect deadline ends it with the timeout, whatever it says.
pub proof fn lemma_useless_answers_end_wishes(
    engine: TcpView,
    key: u64,
    outcome: TcpLookupView,
    error: ErrorView,
    now: u64,
)
    requires
        holds(engine.lookups, key),
    ensures
        ({
            let lookup = found(engine.lookups, key);
            let late = lookup.connect_deadline is Some && lookup.connect_deadline->0 <= now;
            let told = |error: ErrorView|
                TcpView {
                    lookups: without_id(engine.lookups, key),
                    effects: engine.effects.push(
                        TcpEffectView::Fail { id: lookup.purpose.request_id, error },
                    ),
                    ..engine
                };
            &&& late ==> tcp_located(engine, key, outcome, now) == told(
                timeout_error(
                    TimeoutKind::Connect,
                    "the standalone TCP connection-establishment timeout expired"@,
                ),
            )
            &&& !late ==> {
                &&& tcp_located(engine, key, TcpLookupView::Failed(error), now) == told(error)
                &&& tcp_located(engine, key, TcpLookupView::NameNotFound, now) == told(
                    transport_error(
                        TransportStage::Dns,
                        "the standalone TCP hostname does not exist"@,
                    ),
                )
                &&& tcp_located(engine, key, TcpLookupView::NoData, now) == told(
                    transport_error(
                        TransportStage::Dns,
                        "the standalone TCP hostname has no usable address data"@,
                    ),
                )
                &&& tcp_located(engine, key, TcpLookupView::Answer(Seq::empty()), now) == told(
                    transport_error(
                        TransportStage::Dns,
                        "the standalone TCP hostname resolved without a usable address"@,
                    ),
                )
                &&& tcp_located(engine, key, TcpLookupView::Abandoned, now) == (TcpView {
                    lookups: without_id(engine.lookups, key),
                    ..engine
                })
            }
        }),
{
}

/// A wish for a host is looked up under a new number, unless there is no resolver or its timeout has
/// run out since it was accepted.
pub proof fn lemma_hosts_are_looked_up(
    engine: TcpView,
    purpose: TcpPurpose,
    name: Seq<u8>,
    port: u16,
    connect_timeout: Option<u64>,
    accepted_at: u64,
    now: u64,
    deadline: Option<u64>,
)
    requires
        engine.next_resolve_key < u64::MAX,
        falls_due(deadline, accepted_at, connect_timeout),
    ensures
        ({
            let next = connect_submitted(
                engine,
                purpose,
                TargetView::Hostname { name, port },
                connect_timeout,
                accepted_at,
                now,
            );
            let late = deadline is Some && deadline->0 <= now;
            &&& !engine.has_resolver ==> next.effects == engine.effects.push(
                TcpEffectView::Fail {
                    id: purpose.request_id,
                    error: plain_error(
                        ErrorKind::Unsupported,
                        "hostname TCP connections require the native resolver owner"@,
                    ),
                },
            )
            &&& engine.has_resolver && late ==> next.effects == engine.effects.push(
                TcpEffectView::Fail {
                    id: purpose.request_id,
                    error: timeout_error(
                        TimeoutKind::Connect,
                        "the standalone TCP connection-establishment timeout expired"@,
                    ),
                },
            )
            &&& engine.has_resolver && !late ==> {
                &&& next.lookups == engine.lookups.push(
                    (
                        engine.next_resolve_key,
                        StandaloneResolve { purpose, port, connect_deadline: deadline },
                    ),
                )
                &&& next.effects.len() == engine.effects.len() + 1
                &&& next.effects.last() matches TcpEffectView::Locate { key, query } && key
                    == engine.next_resolve_key && query.host == name && query.family is Both
                    && query.order is Ipv4ThenIpv6 && query.cache_mode is Use && query.max_results
                    == purpose.max_resolve_results && !query.expand_search
            }
            &&& next.live == engine.live
            &&& next.pending == engine.pending
        }),
{
}

/// A connection attempt ends at its deadline: its owner learns so, and the socket is closed.
pub proof fn lemma_slow_attempts_end(engine: TcpView, event: TcpEventView, now: u64)
    requires
        tcp_engine_ok(engine),
        holds(engine.pending, event.report.slot),
        event.kind is DeadlineExpired,
    ensures
        ({
            let slot = event.report.slot;
            let next = tcp_event_handled(engine, event, false, now);
            &&& !holds(next.pending, slot)
            &&& !holds(next.live, slot)
            &&& next.effects == engine.effects.push(
                TcpEffectView::Fail {
                    id: found(engine.pending, slot).purpose.request_id,
                    error: timeout_error(
                        TimeoutKind::Connect,
                        "the standalone TCP connection-establishment timeout expired"@,
                    ),
                },
            ).push(TcpEffectView::Close { slot })
        }),
{
    lemma_pending_taken(engine, event.report.slot);
}

/// A live connection that is given up is closed and its owner told; an attempt is closed; a lookup is
/// called off.
pub proof fn lemma_given_up_connections_are_closed(engine: TcpView, id: u64, at: int)
    requires
        forall|i: int|
            0 <= i < engine.lookups.len() ==> (#[trigger] engine.lookups[i]).1.purpose.request_id
                != id,
        forall|i: int|
            0 <= i < engine.pending.len() ==> (#[trigger] engine.pending[i]).1.purpose.request_id
                != id,
        0 <= at <= engine.live.len(),
        at < engine.live.len() ==> engine.live[at].1.request_id == id,
        forall|i: int| 0 <= i < at ==> (#[trigger] engine.live[i]).1.request_id != id,
    ensures
        at < engine.live.len() ==> tcp_cancelled(engine, id) == (TcpView {
            live: engine.live.remove(at),
            effects: engine.effects.push(TcpEffectView::Cancelled { id }).push(
                TcpEffectView::Close { slot: engine.live[at].0 },
            ),
            ..engine
        }),
        at == engine.live.len() ==> tcp_cancelled(engine, id) == engine,
        at < engine.live.len() <==> tcp_owns(engine, id),
{
    let looked = lookup_owners(engine.lookups);
    let tried = attempt_owners(engine.pending);
    let alive = live_owners(engine.live);
    assert forall|i: int| 0 <= i < looked.len() implies #[trigger] looked[i] != id by {
        assert(looked[i] == engine.lookups[i].1.purpose.request_id);
    }
    lemma_first_number_is(looked, id, looked.len() as int);
    assert forall|i: int| 0 <= i < tried.len() implies #[trigger] tried[i] != id by {
        assert(tried[i] == engine.pending[i].1.purpose.request_id);
    }
    lemma_first_number_is(tried, id, tried.len() as int);
    assert forall|i: int| 0 <= i < at implies #[trigger] alive[i] != id by {
        assert(alive[i] == engine.live[i].1.request_id);
    }
    lemma_first_number_is(alive, id, at);
}

/// A wish that is given up before its connection stands calls its lookup off, or closes the attempt.
pub proof fn lemma_given_up_wishes_are_called_off(engine: TcpView, id: u64, at: int)
    ensures
        (0 <= at < engine.lookups.len() && engine.lookups[at].1.purpose.request_id == id && forall|
            i: int,
        |
            0 <= i < at ==> (#[trigger] engine.lookups[i]).1.purpose.request_id != id)
            ==> tcp_cancelled(engine, id) == (TcpView {
            lookups: engine.lookups.remove(at),
            effects: engine.effects.push(
                TcpEffectView::CancelLocate { key: engine.lookups[at].0 },
            ),
            ..engine
        }),
        (0 <= at < engine.pending.len() && engine.pending[at].1.purpose.request_id == id && (forall|
            i: int,
        |
            0 <= i < at ==> (#[trigger] engine.pending[i]).1.purpose.request_id != id) && (forall|
            i: int,
        |
            0 <= i < engine.lookups.len() ==> (#[trigger] engine.lookups[i]).1.purpose.request_id
                != id)) ==> tcp_cancelled(engine, id) == (TcpView {
            pending: engine.pending.remove(at),
            effects: engine.effects.push(TcpEffectView::Close { slot: engine.pending[at].0 }),
            ..engine
        }),
{
    let looked = lookup_owners(engine.lookups);
    let tried = attempt_owners(engine.pending);
    if 0 <= at < engine.lookups.len() && engine.lookups[at].1.purpose.request_id == id && forall|
        i: int,
    |
        0 <= i < at ==> (#[trigger] engine.lookups[i]).1.purpose.request_id != id {
        assert forall|i: int| 0 <= i < at implies #[trigger] looked[i] != id by {
            assert(looked[i] == engine.lookups[i].1.purpose.request_id);
        }
        lemma_first_number_is(looked, id, at);
    }
    if 0 <= at < engine.pending.len() && engine.pending[at].1.purpose.request_id == id && (forall|
        i: int,
    |
        0 <= i < at ==> (#[trigger] engine.pending[i]).1.purpose.request_id != id) && (forall|
        i: int,
    |
        0 <= i < engine.lookups.len() ==> (#[trigger] engine.lookups[i]).1.purpose.request_id
            != id) {
        assert forall|i: int| 0 <= i < looked.len() implies #[trigger] looked[i] != id by {
            assert(looked[i] == engine.lookups[i].1.purpose.request_id);
        }
        lemma_first_number_is(looked, id, looked.len() as int);
        assert forall|i: int| 0 <= i < at implies #[trigger] tried[i] != id by {
            assert(tried[i] == engine.pending[i].1.purpose.request_id);
        }
        lemma_first_number_is(tried, id, at);
    }
}

/// A wish whose host is being looked up has a connect deadline that has passed.
pub open spec fn is_overdue(lookup: StandaloneResolve, now: u64) -> bool {
    lookup.connect_deadline is Some && lookup.connect_deadline->0 <= now
}

proof fn lemma_tcp_lookups_expired(engine: TcpView, now: u64, from: nat)
    requires
        from <= engine.lookups.len(),
    ensures
        tcp_lookups_expired(engine, now, from).lookups == engine.lookups.take(from as int)
            + engine.lookups.skip(from as int).filter(
            |entry: (u64, StandaloneResolve)| !is_overdue(entry.1, now),
        ),
        tcp_lookups_expired(engine, now, from).effects.len() == engine.effects.len() + 2
            * engine.lookups.skip(from as int).filter(
            |entry: (u64, StandaloneResolve)| is_overdue(entry.1, now),
        ).len(),
        tcp_lookups_expired(engine, now, from).live == engine.live,
        tcp_lookups_expired(engine, now, from).pending == engine.pending,
    decreases engine.lookups.len() - from,
{
    let on_time = |entry: (u64, StandaloneResolve)| !is_overdue(entry.1, now);
    let late = |entry: (u64, StandaloneResolve)| is_overdue(entry.1, now);
    let rest = engine.lookups.skip(from as int);
    if from >= engine.lookups.len() {
        reveal(Seq::filter);
        assert(rest =~= Seq::<(u64, StandaloneResolve)>::empty());
        assert(rest.filter(on_time) =~= Seq::<(u64, StandaloneResolve)>::empty());
        assert(rest.filter(late) =~= Seq::<(u64, StandaloneResolve)>::empty());
        assert(engine.lookups.take(from as int) + rest.filter(on_time) =~= engine.lookups);
    } else {
        let first = engine.lookups[from as int];
        lemma_filter_first(rest, on_time);
        lemma_filter_first(rest, late);
        assert(rest[0] == first);
        if is_overdue(first.1, now) {
            let left = failed(
                asked(
                    TcpView { lookups: engine.lookups.remove(from as int), ..engine },
                    TcpEffectView::CancelLocate { key: first.0 },
                ),
                first.1.purpose.request_id,
                standalone_connect_expired(),
            );
            lemma_tcp_lookups_expired(left, now, from);
            assert(left.lookups.skip(from as int) =~= rest.skip(1));
            assert(left.lookups.take(from as int) =~= engine.lookups.take(from as int));
        } else {
            lemma_tcp_lookups_expired(engine, now, from + 1);
            assert(engine.lookups.skip(from as int + 1) =~= rest.skip(1));
            assert(engine.lookups.take(from as int + 1) + rest.skip(1).filter(on_time)
                =~= engine.lookups.take(from as int) + (seq![first] + rest.skip(1).filter(
                on_time,
            )));
        }
    }
}

/// Exactly the lookups whose connect deadline has passed end: each is called off and its owner told.
pub proof fn lemma_only_overdue_lookups_end(engine: TcpView, now: u64)
    ensures
        tcp_lookups_expired(engine, now, 0).lookups == engine.lookups.filter(
            |entry: (u64, StandaloneResolve)| !is_overdue(entry.1, now),
        ),
        tcp_lookups_expired(engine, now, 0).effects.len() == engine.effects.len() + 2
            * engine.lookups.filter(
            |entry: (u64, StandaloneResolve)| is_overdue(entry.1, now),
        ).len(),
        tcp_lookups_expired(engine, now, 0).live == engine.live,
        tcp_lookups_expired(engine, now, 0).pending == engine.pending,
{
    lemma_tcp_lookups_expired(engine, now, 0);
    let kept = engine.lookups.filter(
        |entry: (u64, StandaloneResolve)| !is_overdue(entry.1, now),
    );
    assert(engine.lookups.skip(0) =~= engine.lookups);
    assert(engine.lookups.take(0) + kept =~= kept);
}

/// A connection that stands but that nobody wants any more is closed; an attempt that fails for good is
/// reported.
pub proof fn lemma_attempts_end(engine: TcpView, event: TcpEventView, now: u64)
    requires
        tcp_engine_ok(engine),
        holds(engine.pending, event.report.slot),
    ensures
        ({
            let slot = event.report.slot;
            let attempt = found(engine.pending, slot);
            let next = tcp_event_handled(engine, event, false, now);
            &&& event.kind matches TcpEventKindView::Connected { wanted } ==> (!wanted ==> {
                &&& next.effects == engine.effects.push(TcpEffectView::Close { slot })
                &&& next.live == engine.live
                &&& !holds(next.pending, slot)
            })
            &&& event.kind matches TcpEventKindView::Failed(failure) ==> (!(failure.kind is Connect)
                || attempt.remaining.len() == 0 ==> {
                &&& next.effects == engine.effects.push(
                    TcpEffectView::Fail {
                        id: attempt.purpose.request_id,
                        error: crate::failure::transport_failure(failure),
                    },
                )
                &&& !holds(next.pending, slot)
            })
            &&& event.kind is WriteProgress || event.kind is WriteDrained || event.kind is Data
                || event.kind is PeerClosed ==> next.effects == engine.effects && holds(
                next.pending,
                slot,
            ) && found(next.pending, slot) == attempt
        }),
{
    let slot = event.report.slot;
    lemma_pending_taken(engine, slot);
    lemma_added(without_id(engine.pending, slot), slot, found(engine.pending, slot), slot);
}

} // verus!
