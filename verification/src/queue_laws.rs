//! What holds of the queue: it is served in order, and nobody waits who could start.

use crate::backend::{
    backend_ok, lemma_released, lemma_transfer_taken, released, BackendView, EffectView,
};
use crate::dispatch::{
    dispatched, lemma_all_closed, lookup_begun, placed, reuse_begun, reuse_undone, room_taken,
    waiting_dispatched, waiting_expired,
};
use crate::pending::{retried, PendingView};
use crate::pool::{
    dropped, first_key, idle_keys, lemma_dropped_ok, lemma_first_key_bounds, lemma_idle_used_ok,
    lemma_leased_ok, lemma_room_is_real, lemma_tally_without, pool_ok, room_made, tally, KeyView,
    PoolView,
};
use crate::table::{found, holds, without_id};
use vstd::prelude::*;

verus! {

/// Whether no connection to an origin can be had: none is idle, and every connection that stands in
/// the way of a new one is in use.
pub open spec fn is_stuck(pool: PoolView, key: KeyView) -> bool {
    &&& first_key(idle_keys(pool.idle), key) == pool.idle.len()
    &&& tally(pool.leases, key) >= pool.limits.per_origin || (pool.leases.len()
        >= pool.limits.global && pool.idle.len() == 0)
}

proof fn lemma_room(pool: PoolView, key: KeyView)
    requires
        pool_ok(pool),
        first_key(idle_keys(pool.idle), key) == pool.idle.len(),
    ensures
        room_made(pool, key).room == !is_stuck(pool, key),
        is_stuck(pool, key) ==> room_made(pool, key).pool == pool && room_made(
            pool,
            key,
        ).dropped.len() == 0,
{
    if tally(pool.leases, key) < pool.limits.per_origin && pool.leases.len()
        >= pool.limits.global && pool.idle.len() > 0 {
        let gone = pool.idle[0].key;
        lemma_dropped_ok(pool, 0);
        lemma_tally_without(pool.leases, gone, key);
        assert(room_made(dropped(pool, 0), key).room);
    }
}

/// A request has to wait exactly where no connection can be had; trying changes nothing then.
pub proof fn lemma_waiting_is_needed(backend: BackendView, pending: PendingView)
    requires
        pool_ok(backend.pool),
    ensures
        placed(backend, pending).1 == !is_stuck(backend.pool, pending.key),
        is_stuck(backend.pool, pending.key) ==> placed(backend, pending).0 == backend,
        pool_ok(placed(backend, pending).0.pool),
{
    reveal(placed);
    reveal(reuse_begun);
    let at = first_key(idle_keys(backend.pool.idle), pending.key);
    lemma_first_key_bounds(idle_keys(backend.pool.idle), pending.key);
    let (next, reused) = reuse_begun(backend, pending);
    if at >= backend.pool.idle.len() {
        lemma_room(backend.pool, pending.key);
        lemma_room_taken(backend, pending);
    } else if backend.pool.idle[at].noisy {
        lemma_dropped_ok(backend.pool, at);
        assert(next.pool == (PoolView {
            counts: next.pool.counts,
            ..dropped(backend.pool, at)
        }));
        assert(tally(backend.pool.leases, pending.key) <= backend.pool.limits.per_origin);
        assert(room_made(next.pool, pending.key).room);
        lemma_room_taken(next, pending);
    } else {
        lemma_idle_used_ok(backend.pool, at);
    }
}

proof fn lemma_room_taken(backend: BackendView, pending: PendingView)
    requires
        pool_ok(backend.pool),
    ensures
        room_taken(backend, pending).1 == room_made(backend.pool, pending.key).room,
        !room_made(backend.pool, pending.key).room && room_made(
            backend.pool,
            pending.key,
        ).pool == backend.pool && room_made(backend.pool, pending.key).dropped.len() == 0
            ==> room_taken(backend, pending).0 == backend,
        pool_ok(room_taken(backend, pending).0.pool),
{
    reveal(room_taken);
    reveal(lookup_begun);
    let made = room_made(backend.pool, pending.key);
    lemma_room_is_real(backend.pool, pending.key);
    let made_room = BackendView { pool: made.pool, ..backend };
    lemma_all_closed(made_room, made.dropped);
    if made.room {
        lemma_leased_ok(made.pool, pending.key);
    }
}

/// Only a request on a connection that was idle, on which nothing has happened since, is sent anew. For
/// any other nothing changes.
pub proof fn lemma_only_unproven_connections_are_given_up(backend: BackendView, slot: u64)
    requires
        !holds(backend.transfers, slot) || found(
            backend.transfers,
            slot,
        ).exchange.fallback is None,
    ensures
        reuse_undone(backend, slot) == (backend, false),
{
}


/// A request that is taken off an idle connection never waits: the lease that it gives back makes
/// room for it, and the address of its host is looked up at once. The request is what it was.
pub proof fn lemma_failed_reuse_starts_anew(backend: BackendView, slot: u64)
    requires
        backend_ok(backend),
        holds(backend.transfers, slot),
        found(backend.transfers, slot).exchange.fallback is Some,
        backend.next_resolve_key < u64::MAX,
    ensures
        ({
            let transfer = found(backend.transfers, slot);
            let pending = retried(transfer, transfer.exchange.fallback->0);
            let next = reuse_undone(backend, slot).0;
            &&& next.effects == backend.effects.push(EffectView::Close { slot }).push(
                EffectView::Locate { key: backend.next_resolve_key, host: pending.host },
            )
            &&& next.resolves == backend.resolves.push((backend.next_resolve_key, pending))
            &&& next.transfers == without_id(backend.transfers, slot)
            &&& next.waiting == backend.waiting
            &&& next.done == backend.done
            &&& next.pool.idle == backend.pool.idle
        }),
{
    let transfer = found(backend.transfers, slot);
    let pending = retried(transfer, transfer.exchange.fallback->0);
    let taken = BackendView { transfers: without_id(backend.transfers, slot), ..backend };
    lemma_transfer_taken(backend, slot);
    lemma_released(taken, pending.key);
    let left = released(
        BackendView { pool: crate::pool::reuse_uncounted(backend.pool), ..taken },
        pending.key,
    );
    lemma_tally_without(backend.pool.leases, pending.key, pending.key);
    assert(tally(backend.pool.leases, pending.key) <= backend.pool.limits.per_origin);
    assert(room_made(left.pool, pending.key).room);
    assert(room_made(left.pool, pending.key).pool == left.pool);
    reveal(room_taken);
    reveal(lookup_begun);
}

proof fn lemma_nobody_left(backend: BackendView, from: nat, i: int)
    requires
        pool_ok(backend.pool),
        forall|j: int|
            0 <= j < from && j < backend.waiting.len() ==> is_stuck(
                backend.pool,
                (#[trigger] backend.waiting[j]).key,
            ),
        0 <= i < waiting_dispatched(backend, from).waiting.len(),
    ensures
        is_stuck(
            waiting_dispatched(backend, from).pool,
            waiting_dispatched(backend, from).waiting[i].key,
        ),
    decreases backend.waiting.len(), backend.waiting.len() - from,
{
    if from < backend.waiting.len() {
        let pending = backend.waiting[from as int];
        let rest = backend.waiting.remove(from as int);
        let taken = BackendView { waiting: rest, ..backend };
        lemma_waiting_is_needed(taken, pending);
        let (next, done) = placed(taken, pending);
        if done {
            lemma_nobody_left(BackendView { waiting: rest, ..next }, 0, i);
        } else {
            assert(BackendView { waiting: backend.waiting, ..next } == backend);
            lemma_nobody_left(backend, from + 1, i);
        }
    }
}

/// Nobody waits who could start: once the queue was gone through, no connection can be had for any
/// request that is still in it.
pub proof fn lemma_nobody_waits_in_vain(backend: BackendView, now: u64, i: int)
    requires
        backend_ok(backend),
        0 <= i < dispatched(backend, now).waiting.len(),
    ensures
        is_stuck(dispatched(backend, now).pool, dispatched(backend, now).waiting[i].key),
        !placed(dispatched(backend, now), dispatched(backend, now).waiting[i]).1,
{
    lemma_expiry_keeps_pool(backend, now, 0);
    let alive = waiting_expired(backend, now, 0);
    lemma_nobody_left(alive, 0, i);
    lemma_dispatch_keeps_order(alive, 0);
    lemma_waiting_is_needed(dispatched(backend, now), dispatched(backend, now).waiting[i]);
}

proof fn lemma_expiry_keeps_pool(backend: BackendView, now: u64, from: nat)
    ensures
        waiting_expired(backend, now, from).pool == backend.pool,
        is_part(waiting_expired(backend, now, from).waiting, backend.waiting),
    decreases backend.waiting.len() - from,
{
    lemma_part_of_itself(backend.waiting);
    if from < backend.waiting.len() {
        let pending = backend.waiting[from as int];
        if crate::deadline::is_past(crate::pending::pending_deadline(pending), now) {
            let taken = crate::backend::reported(
                BackendView { waiting: backend.waiting.remove(from as int), ..backend },
                pending.request_id,
                crate::pending::pending_failed(
                    pending.response,
                    crate::failure::expired(crate::pending::pending_timeout(pending, now)),
                ),
            );
            lemma_expiry_keeps_pool(taken, now, from);
            lemma_part_without(backend.waiting, from as int);
            lemma_part_of_part(
                waiting_expired(taken, now, from).waiting,
                taken.waiting,
                backend.waiting,
            );
        } else {
            lemma_expiry_keeps_pool(backend, now, from + 1);
        }
    }
}

/// Whether some of the things in a sequence are there, in the same order.
pub open spec fn is_part<A>(part: Seq<A>, all: Seq<A>) -> bool
    decreases all.len(),
{
    if part.len() == 0 {
        true
    } else if all.len() == 0 {
        false
    } else {
        ||| part.last() == all.last() && is_part(part.drop_last(), all.drop_last())
        ||| is_part(part, all.drop_last())
    }
}

proof fn lemma_part_of_itself<A>(all: Seq<A>)
    ensures
        is_part(all, all),
    decreases all.len(),
{
    if all.len() > 0 {
        lemma_part_of_itself(all.drop_last());
    }
}

proof fn lemma_part_of_part<A>(least: Seq<A>, part: Seq<A>, all: Seq<A>)
    requires
        is_part(least, part),
        is_part(part, all),
    ensures
        is_part(least, all),
    decreases least.len() + part.len() + all.len(),
{
    if least.len() > 0 {
        if is_part(part, all.drop_last()) {
            lemma_part_of_part(least, part, all.drop_last());
        } else if is_part(least, part.drop_last()) {
            lemma_part_of_part(least, part.drop_last(), all.drop_last());
        } else {
            lemma_part_of_part(least.drop_last(), part.drop_last(), all.drop_last());
        }
    }
}

proof fn lemma_part_without<A>(all: Seq<A>, at: int)
    requires
        0 <= at < all.len(),
    ensures
        is_part(all.remove(at), all),
    decreases all.len(),
{
    if at == all.len() - 1 {
        assert(all.remove(at) =~= all.drop_last());
        lemma_part_of_itself(all.drop_last());
    } else {
        assert(all.remove(at).drop_last() =~= all.drop_last().remove(at));
        lemma_part_without(all.drop_last(), at);
    }
}

/// Serving the queue takes requests out of it and leaves the others in their order.
pub proof fn lemma_dispatch_keeps_order(backend: BackendView, from: nat)
    requires
        pool_ok(backend.pool),
    ensures
        is_part(waiting_dispatched(backend, from).waiting, backend.waiting),
        pool_ok(waiting_dispatched(backend, from).pool),
    decreases backend.waiting.len(), backend.waiting.len() - from,
{
    lemma_part_of_itself(backend.waiting);
    if from < backend.waiting.len() {
        let pending = backend.waiting[from as int];
        let rest = backend.waiting.remove(from as int);
        let taken = BackendView { waiting: rest, ..backend };
        lemma_waiting_is_needed(taken, pending);
        let (next, done) = placed(taken, pending);
        if done {
            let left = BackendView { waiting: rest, ..next };
            lemma_dispatch_keeps_order(left, 0);
            lemma_part_without(backend.waiting, from as int);
            lemma_part_of_part(waiting_dispatched(left, 0).waiting, rest, backend.waiting);
        } else {
            assert(BackendView { waiting: backend.waiting, ..next } == backend);
            lemma_dispatch_keeps_order(backend, from + 1);
        }
    }
}

/// Requests that wait keep their order.
pub proof fn lemma_queue_keeps_its_order(backend: BackendView, now: u64)
    requires
        backend_ok(backend),
    ensures
        is_part(dispatched(backend, now).waiting, backend.waiting),
{
    lemma_expiry_keeps_pool(backend, now, 0);
    let alive = waiting_expired(backend, now, 0);
    lemma_dispatch_keeps_order(alive, 0);
    lemma_part_of_part(dispatched(backend, now).waiting, alive.waiting, backend.waiting);
}

/// No request overtakes an older one to the same origin: while the older one cannot start, neither
/// can the younger one.
pub proof fn lemma_nobody_overtakes(backend: BackendView, from: nat, older: int)
    requires
        pool_ok(backend.pool),
        0 <= older < from < backend.waiting.len(),
        backend.waiting[older].key == backend.waiting[from as int].key,
        is_stuck(backend.pool, backend.waiting[older].key),
    ensures
        !placed(
            BackendView { waiting: backend.waiting.remove(from as int), ..backend },
            backend.waiting[from as int],
        ).1,
{
    lemma_waiting_is_needed(
        BackendView { waiting: backend.waiting.remove(from as int), ..backend },
        backend.waiting[from as int],
    );
}

} // verus!
