//! What holds of every pool: how far the limits can be used up, which idle connections give way, and
//! which are too old.

use crate::backend::BackendView;
use crate::dispatch::all_closed;
use crate::engine::parked;
use crate::events::idle_closed;
use crate::exchange::ExchangeView;
use crate::pool::{
    dropped, first_key, idle_expired, idle_keys, leased, lemma_dropped_ok, lemma_first_key_bounds,
    lemma_tally_positive, may_park, may_reserve, pool_ok, rested, reuse_counted, reuse_uncounted,
    room_made, tally, unleased, wait_counted, IdleView, KeyView, PoolView,
};
use vstd::prelude::*;

verus! {

/// The limits can be used up and no further: a connection may be made while there are fewer than
/// allowed in all and to its origin, and one may be kept idle while fewer are, if idle time is allowed
/// at all.
pub proof fn lemma_limits_can_be_used_up(pool: PoolView, key: KeyView)
    ensures
        may_reserve(pool, key) <==> pool.leases.len() + 1 <= pool.limits.global && tally(
            pool.leases,
            key,
        ) + 1 <= pool.limits.per_origin,
        may_park(pool, key) <==> pool.idle.len() + 1 <= pool.limits.idle_global && tally(
            idle_keys(pool.idle),
            key,
        ) + 1 <= pool.limits.idle_per_origin && pool.limits.idle_timeout > 0,
{
}

/// Room for a connection is there, or can be had by closing one idle connection: one to the same origin
/// where that origin is full, else the one that has been idle longest where everything is full. No
/// more than that one is closed, and none without need.
pub proof fn lemma_at_most_one_idle_connection_gives_way(pool: PoolView, key: KeyView)
    requires
        pool_ok(pool),
    ensures
        ({
            let made = room_made(pool, key);
            let own = first_key(idle_keys(pool.idle), key);
            let origin_full = tally(pool.leases, key) >= pool.limits.per_origin;
            let all_full = pool.leases.len() >= pool.limits.global;
            let has_own = tally(idle_keys(pool.idle), key) > 0;
            &&& made.room <==> (!origin_full || has_own) && (!all_full || pool.idle.len() > 0)
            &&& !origin_full && !all_full ==> made.pool == pool && made.dropped == Seq::<u64>::empty()
            &&& origin_full && has_own ==> made.dropped == seq![pool.idle[own].slot]
                && pool.idle[own].key == key && made.pool.idle == pool.idle.remove(own)
            &&& origin_full && !has_own ==> made.pool == pool && made.dropped == Seq::<u64>::empty()
            &&& !origin_full && all_full && pool.idle.len() > 0 ==> made.dropped == seq![
                pool.idle[0].slot,
            ] && made.pool.idle == pool.idle.remove(0)
            &&& !origin_full && all_full && pool.idle.len() == 0 ==> made.pool == pool
                && made.dropped == Seq::<u64>::empty()
            &&& made.pool.leases.len() + made.dropped.len() == pool.leases.len()
        }),
{
    let own = first_key(idle_keys(pool.idle), key);
    lemma_first_key_bounds(idle_keys(pool.idle), key);
    lemma_tally_positive(idle_keys(pool.idle), key);
    lemma_tally_positive(pool.leases, key);
    let made = room_made(pool, key);
    let nothing = Seq::<u64>::empty();
    if tally(pool.leases, key) >= pool.limits.per_origin {
        if own < pool.idle.len() {
            lemma_dropped_ok(pool, own);
            let left = dropped(pool, own);
            assert(tally(pool.leases, key) <= pool.limits.per_origin);
            assert(room_made(left, key).dropped == nothing);
            assert(made.dropped =~= seq![pool.idle[own].slot]);
        }
    } else if pool.leases.len() >= pool.limits.global {
        if pool.idle.len() > 0 {
            lemma_dropped_ok(pool, 0);
            let left = dropped(pool, 0);
            lemma_dropped_tally(pool, 0, key);
            assert(room_made(left, key).dropped == nothing);
            assert(made.dropped =~= seq![pool.idle[0].slot]);
        }
    }
}

proof fn lemma_dropped_tally(pool: PoolView, at: int, key: KeyView)
    requires
        0 <= at < pool.idle.len(),
    ensures
        tally(dropped(pool, at).leases, key) <= tally(pool.leases, key),
{
    crate::pool::lemma_tally_without(pool.leases, pool.idle[at].key, key);
}

/// The connections that may stay idle.
pub open spec fn unexpired(now: u64) -> spec_fn(IdleView) -> bool {
    |connection: IdleView| connection.expires_at > now
}

/// The connections that have been idle for too long.
pub open spec fn too_old(now: u64) -> spec_fn(IdleView) -> bool {
    |connection: IdleView| connection.expires_at <= now
}

/// The numbers of idle connections.
pub open spec fn slots_of(idle: Seq<IdleView>) -> Seq<u64> {
    idle.map_values(|connection: IdleView| connection.slot)
}

/// Keeping some items of a sequence keeps its first one where it is wanted, and then those of the rest.
pub proof fn lemma_filter_first<A>(items: Seq<A>, pred: spec_fn(A) -> bool)
    requires
        items.len() > 0,
    ensures
        items.filter(pred) == if pred(items[0]) {
            seq![items[0]] + items.skip(1).filter(pred)
        } else {
            items.skip(1).filter(pred)
        },
{
    let one = seq![items[0]];
    assert(items =~= one + items.skip(1));
    Seq::filter_distributes_over_add(one, items.skip(1), pred);
    reveal(Seq::filter);
    assert(one.drop_last() =~= Seq::<A>::empty());
    assert(one.drop_last().filter(pred) =~= Seq::<A>::empty());
    if pred(items[0]) {
        assert(one.filter(pred) =~= one);
    } else {
        assert(one.filter(pred) =~= Seq::<A>::empty());
        assert(Seq::<A>::empty() + items.skip(1).filter(pred) =~= items.skip(1).filter(pred));
    }
}

proof fn lemma_idle_expired(pool: PoolView, now: u64, from: nat)
    requires
        from <= pool.idle.len(),
    ensures
        idle_expired(pool, now, from).0.idle == pool.idle.take(from as int) + pool.idle.skip(
            from as int,
        ).filter(unexpired(now)),
        idle_expired(pool, now, from).1 == slots_of(
            pool.idle.skip(from as int).filter(too_old(now)),
        ),
        idle_expired(pool, now, from).0.limits == pool.limits,
    decreases pool.idle.len() - from,
{
    let rest = pool.idle.skip(from as int);
    if from >= pool.idle.len() {
        reveal(Seq::filter);
        assert(rest =~= Seq::<IdleView>::empty());
        assert(rest.filter(unexpired(now)) =~= Seq::<IdleView>::empty());
        assert(rest.filter(too_old(now)) =~= Seq::<IdleView>::empty());
        assert(pool.idle.take(from as int) + rest.filter(unexpired(now)) =~= pool.idle);
        assert(slots_of(rest.filter(too_old(now))) =~= Seq::<u64>::empty());
    } else {
        let first = pool.idle[from as int];
        lemma_filter_first(rest, unexpired(now));
        lemma_filter_first(rest, too_old(now));
        assert(rest[0] == first);
        if first.expires_at <= now {
            let left = dropped(pool, from as int);
            lemma_idle_expired(left, now, from);
            assert(left.idle.skip(from as int) =~= rest.skip(1));
            assert(left.idle.take(from as int) =~= pool.idle.take(from as int));
            assert(slots_of(seq![first] + rest.skip(1).filter(too_old(now))) =~= seq![first.slot]
                + slots_of(rest.skip(1).filter(too_old(now))));
        } else {
            lemma_idle_expired(pool, now, from + 1);
            assert(pool.idle.skip(from as int + 1) =~= rest.skip(1));
            assert(pool.idle.take(from as int + 1) + rest.skip(1).filter(unexpired(now))
                =~= pool.idle.take(from as int) + (seq![first] + rest.skip(1).filter(
                unexpired(now),
            )));
        }
    }
}

/// Closing connections asks for each of them in turn, and changes nothing else.
pub proof fn lemma_all_closed_asks(backend: BackendView, slots: Seq<u64>)
    ensures
        all_closed(backend, slots) == (BackendView {
            effects: backend.effects + slots.map_values(
                |slot: u64| crate::backend::EffectView::Close { slot },
            ),
            ..backend
        }),
    decreases slots.len(),
{
    let asks = slots.map_values(|slot: u64| crate::backend::EffectView::Close { slot });
    if slots.len() == 0 {
        assert(backend.effects + asks =~= backend.effects);
    } else {
        let front = slots.drop_last();
        lemma_all_closed_asks(backend, front);
        assert((backend.effects + front.map_values(
            |slot: u64| crate::backend::EffectView::Close { slot },
        )).push(crate::backend::EffectView::Close { slot: slots.last() }) =~= backend.effects + asks);
    }
}

/// Exactly the connections whose idle time is up are closed; the others stay, in their order.
pub proof fn lemma_only_expired_connections_are_closed(backend: BackendView, now: u64)
    ensures
        idle_closed(backend, now).pool.idle == backend.pool.idle.filter(unexpired(now)),
        idle_closed(backend, now).effects == backend.effects + slots_of(
            backend.pool.idle.filter(too_old(now)),
        ).map_values(|slot: u64| crate::backend::EffectView::Close { slot }),
        idle_closed(backend, now).transfers == backend.transfers,
        idle_closed(backend, now).waiting == backend.waiting,
{
    lemma_idle_expired(backend.pool, now, 0);
    let idle = backend.pool.idle;
    assert(idle.skip(0) =~= idle);
    assert(idle.take(0) + idle.filter(unexpired(now)) =~= idle.filter(unexpired(now)));
    let (pool, slots) = idle_expired(backend.pool, now, 0);
    lemma_all_closed_asks(BackendView { pool, ..backend }, slots);
}

/// A connection that carried an exchange to a clean end rests, where the limits allow it: it joins the
/// idle ones, keeps its lease, and its time is up the idle time from then.
pub proof fn lemma_clean_connections_rest(
    backend: BackendView,
    slot: u64,
    exchange: ExchangeView,
    now: u64,
)
    requires
        exchange.request_permits_reuse,
        exchange.request_write_drained,
        backend.pool.limits.idle_timeout > 0,
        backend.pool.idle.len() + 1 <= backend.pool.limits.idle_global,
        tally(idle_keys(backend.pool.idle), exchange.key) + 1
            <= backend.pool.limits.idle_per_origin,
        now + backend.pool.limits.idle_timeout <= u64::MAX,
    ensures
        ({
            let next = parked(backend, slot, exchange, true, now);
            let expires_at = (now + backend.pool.limits.idle_timeout) as u64;
            &&& next.pool.idle == backend.pool.idle.push(
                IdleView { slot, key: exchange.key, tls: exchange.tls, expires_at, noisy: false },
            )
            &&& next.pool.leases == backend.pool.leases
            &&& next.effects == backend.effects.push(
                crate::backend::EffectView::SetDeadline { slot, deadline: Some(expires_at) },
            )
            &&& next.pool.counts.closed == backend.pool.counts.closed
        }),
{
    reveal(parked);
}

/// What is counted: a connection that is made counts as opened, one that is given up as closed, an idle
/// one that gives way as evicted too, one that is used again as reused until that is undone; and the
/// peaks are the most there ever were.
pub proof fn lemma_counts_follow_what_happens(
    pool: PoolView,
    key: KeyView,
    at: int,
    connection: IdleView,
    waiting: usize,
)
    requires
        pool_ok(pool),
        0 <= at < pool.idle.len(),
        pool.counts.opened < u64::MAX,
        pool.counts.closed < u64::MAX,
        pool.counts.evicted < u64::MAX,
        pool.counts.reused < u64::MAX - 1,
        pool.leases.len() < usize::MAX,
        pool.idle.len() < usize::MAX,
    ensures
        leased(pool, key).counts.opened == pool.counts.opened + 1,
        leased(pool, key).counts.peak_active == if pool.counts.peak_active > pool.leases.len() + 1 {
            pool.counts.peak_active as nat
        } else {
            pool.leases.len() + 1
        },
        tally(pool.leases, key) > 0 ==> unleased(pool, key).counts.closed == pool.counts.closed + 1,
        tally(pool.leases, key) == 0 ==> unleased(pool, key).counts == pool.counts,
        dropped(pool, at).counts.evicted == pool.counts.evicted + 1,
        dropped(pool, at).counts.closed == pool.counts.closed + 1,
        dropped(pool, at).counts.opened == pool.counts.opened,
        rested(pool, connection).counts.peak_idle == if pool.counts.peak_idle > pool.idle.len() + 1 {
            pool.counts.peak_idle as nat
        } else {
            pool.idle.len() + 1
        },
        reuse_counted(pool).counts.reused == pool.counts.reused + 1,
        reuse_uncounted(reuse_counted(pool)) == pool,
        wait_counted(pool, waiting as nat).counts.peak_waiting == if pool.counts.peak_waiting
            > waiting {
            pool.counts.peak_waiting
        } else {
            waiting
        },
{
    lemma_tally_positive(pool.leases, key);
    crate::pool::lemma_first_key_bounds(pool.leases, key);
    lemma_dropped_ok(pool, at);
    lemma_tally_positive(pool.leases, pool.idle[at].key);
}

} // verus!
