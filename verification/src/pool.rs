//! Connection accounting: how many connections exist, to where, and which of them are idle.

use crate::config::ConnectionLimits;
use crate::origin::Scheme;
use crate::types::copy_bytes;
use vstd::prelude::*;

verus! {

/// What connections must have in common to be interchangeable.
#[derive(Debug, PartialEq, Eq)]
pub struct ConnectionKey {
    pub scheme: Scheme,
    pub host: Vec<u8>,
    pub port: u16,
    pub dangerously_disable_tls_verification: bool,
}

/// What a [`ConnectionKey`] holds.
#[verifier::ext_equal]
pub struct KeyView {
    pub scheme: Scheme,
    pub host: Seq<u8>,
    pub port: u16,
    pub dangerously_disable_tls_verification: bool,
}

impl View for ConnectionKey {
    type V = KeyView;

    open spec fn view(&self) -> KeyView {
        KeyView {
            scheme: self.scheme,
            host: self.host@,
            port: self.port,
            dangerously_disable_tls_verification: self.dangerously_disable_tls_verification,
        }
    }
}

impl Clone for ConnectionKey {
    fn clone(&self) -> (result: Self)
        ensures
            result@ == self@,
    {
        ConnectionKey {
            scheme: self.scheme,
            host: copy_bytes(self.host.as_slice()),
            port: self.port,
            dangerously_disable_tls_verification: self.dangerously_disable_tls_verification,
        }
    }
}

/// Compares two byte strings.
pub fn same_bytes(left: &[u8], right: &[u8]) -> (result: bool)
    ensures
        result == (left@ == right@),
{
    if left.len() != right.len() {
        return false;
    }
    let mut i: usize = 0;
    while i < left.len()
        invariant
            left@.len() == right@.len(),
            i <= left@.len(),
            forall|j: int| 0 <= j < i ==> left@[j] == right@[j],
        decreases left@.len() - i,
    {
        if left[i] != right[i] {
            return false;
        }
        i += 1;
    }
    assert(left@ =~= right@);
    true
}

/// Compares two keys.
pub fn same_key(left: &ConnectionKey, right: &ConnectionKey) -> (result: bool)
    ensures
        result == (left@ == right@),
{
    left.scheme == right.scheme && left.port == right.port
        && left.dangerously_disable_tls_verification == right.dangerously_disable_tls_verification
        && same_bytes(left.host.as_slice(), right.host.as_slice())
}

/// What an established TLS session is doing.
#[derive(Clone, Copy, Debug, PartialEq, Eq, Structural)]
pub struct TlsPhase {
    pub handshaking: bool,
    /// Everything handed to the session for sending has been encrypted.
    pub request_encrypted: bool,
}

/// A connection that carries no exchange.
#[derive(Debug)]
pub struct IdleConnection {
    pub slot: u64,
    pub key: ConnectionKey,
    pub tls: Option<TlsPhase>,
    pub expires_at: u64,
    /// Something arrived on it, or it could not be examined.
    pub noisy: bool,
}

/// What an [`IdleConnection`] holds.
#[verifier::ext_equal]
pub struct IdleView {
    pub slot: u64,
    pub key: KeyView,
    pub tls: Option<TlsPhase>,
    pub expires_at: u64,
    pub noisy: bool,
}

impl View for IdleConnection {
    type V = IdleView;

    open spec fn view(&self) -> IdleView {
        IdleView {
            slot: self.slot,
            key: self.key@,
            tls: self.tls,
            expires_at: self.expires_at,
            noisy: self.noisy,
        }
    }
}

/// What became of connections so far: how many were opened, closed, used again and evicted while
/// idle, and how many were open, were idle and were waited for at most at one time. A count that is
/// full stays full.
#[derive(Clone, Copy, Debug, PartialEq, Eq, Structural)]
pub struct ConnectionCounts {
    pub opened: u64,
    pub closed: u64,
    pub reused: u64,
    pub evicted: u64,
    pub peak_active: usize,
    pub peak_idle: usize,
    pub peak_waiting: usize,
}

/// Nothing has been counted.
pub open spec fn no_counts() -> ConnectionCounts {
    ConnectionCounts {
        opened: 0,
        closed: 0,
        reused: 0,
        evicted: 0,
        peak_active: 0,
        peak_idle: 0,
        peak_waiting: 0,
    }
}

/// A count that grew.
pub open spec fn grown(count: u64, by: nat) -> u64 {
    if count + by >= u64::MAX {
        u64::MAX
    } else {
        (count + by) as u64
    }
}

/// A count that was one too many.
pub open spec fn taken_back(count: u64) -> u64 {
    if 0 < count < u64::MAX {
        (count - 1) as u64
    } else {
        count
    }
}

/// A peak, once it has been as much as `now`.
pub open spec fn raised(peak: usize, now: nat) -> usize {
    if now > peak {
        now as usize
    } else {
        peak
    }
}

fn raise(peak: usize, now: usize) -> (result: usize)
    ensures
        result == raised(peak, now as nat),
{
    if now > peak {
        now
    } else {
        peak
    }
}

/// The connections of one engine: one lease for each that exists or is being made, and among them
/// the idle ones, oldest first.
#[derive(Debug)]
pub struct ConnectionPool {
    pub limits: ConnectionLimits,
    pub leases: Vec<ConnectionKey>,
    pub idle: Vec<IdleConnection>,
    pub counts: ConnectionCounts,
}

/// What a [`ConnectionPool`] holds.
#[verifier::ext_equal]
pub struct PoolView {
    pub limits: ConnectionLimits,
    pub leases: Seq<KeyView>,
    pub idle: Seq<IdleView>,
    pub counts: ConnectionCounts,
}

impl View for ConnectionPool {
    type V = PoolView;

    open spec fn view(&self) -> PoolView {
        PoolView {
            limits: self.limits,
            leases: Seq::new(self.leases@.len(), |i: int| self.leases@[i]@),
            idle: Seq::new(self.idle@.len(), |i: int| self.idle@[i]@),
            counts: self.counts,
        }
    }
}

/// How often a key occurs.
pub open spec fn tally(keys: Seq<KeyView>, key: KeyView) -> nat
    decreases keys.len(),
{
    if keys.len() == 0 {
        0
    } else {
        tally(keys.drop_last(), key) + if keys.last() == key {
            1nat
        } else {
            0nat
        }
    }
}

/// The keys of idle connections.
pub open spec fn idle_keys(idle: Seq<IdleView>) -> Seq<KeyView> {
    idle.map_values(|connection: IdleView| connection.key)
}

/// The position of the first occurrence of a key, or the length where there is none.
pub open spec fn first_key(keys: Seq<KeyView>, key: KeyView) -> int
    decreases keys.len(),
{
    if keys.len() == 0 || keys[0] == key {
        0
    } else {
        1 + first_key(keys.skip(1), key)
    }
}

/// The keys without the first occurrence of one of them.
pub open spec fn without(keys: Seq<KeyView>, key: KeyView) -> Seq<KeyView> {
    let at = first_key(keys, key);
    if at < keys.len() {
        keys.remove(at)
    } else {
        keys
    }
}

/// The position of the idle connection in a slot, or the number of idle connections.
pub open spec fn slot_position(idle: Seq<IdleView>, slot: u64) -> int
    decreases idle.len(),
{
    if idle.len() == 0 || idle[0].slot == slot {
        0
    } else {
        1 + slot_position(idle.skip(1), slot)
    }
}

/// As long as the count of opened connections is not full, each of them is open or was counted as
/// closed; and the peaks lie between what is and what may be.
pub open spec fn counts_ok(pool: PoolView) -> bool {
    &&& pool.counts.opened < u64::MAX ==> pool.counts.opened == pool.counts.closed
        + pool.leases.len()
    &&& pool.leases.len() <= pool.counts.peak_active <= pool.limits.global
    &&& pool.idle.len() <= pool.counts.peak_idle <= pool.limits.idle_global
}

/// Bounds are kept, every idle connection has a lease, no slot is idle twice, and the counts agree.
pub open spec fn pool_ok(pool: PoolView) -> bool {
    &&& counts_ok(pool)
    &&& pool.leases.len() <= pool.limits.global
    &&& forall|key: KeyView| #[trigger] tally(pool.leases, key) <= pool.limits.per_origin
    &&& pool.idle.len() <= pool.limits.idle_global
    &&& forall|key: KeyView|
        #[trigger] tally(idle_keys(pool.idle), key) <= pool.limits.idle_per_origin
    &&& forall|key: KeyView| #[trigger] tally(idle_keys(pool.idle), key) <= tally(pool.leases, key)
    &&& forall|i: int, j: int|
        0 <= i < j < pool.idle.len() ==> (#[trigger] pool.idle[i]).slot != (
        #[trigger] pool.idle[j]).slot
}

/// Whether one more connection may be made.
pub open spec fn may_reserve(pool: PoolView, key: KeyView) -> bool {
    pool.leases.len() < pool.limits.global && tally(pool.leases, key) < pool.limits.per_origin
}

/// Whether one more connection may become idle.
pub open spec fn may_park(pool: PoolView, key: KeyView) -> bool {
    &&& pool.limits.idle_timeout != 0
    &&& pool.idle.len() < pool.limits.idle_global
    &&& tally(idle_keys(pool.idle), key) < pool.limits.idle_per_origin
}

/// The pool with one more lease: a connection is opened.
pub open spec fn leased(pool: PoolView, key: KeyView) -> PoolView {
    PoolView {
        leases: pool.leases.push(key),
        counts: ConnectionCounts {
            opened: grown(pool.counts.opened, 1),
            peak_active: raised(pool.counts.peak_active, pool.leases.len() + 1),
            ..pool.counts
        },
        ..pool
    }
}

/// The pool without one lease, where there is one: a connection is closed.
pub open spec fn unleased(pool: PoolView, key: KeyView) -> PoolView {
    PoolView {
        leases: without(pool.leases, key),
        counts: if first_key(pool.leases, key) < pool.leases.len() {
            ConnectionCounts { closed: grown(pool.counts.closed, 1), ..pool.counts }
        } else {
            pool.counts
        },
        ..pool
    }
}

/// The pool with one more idle connection.
pub open spec fn rested(pool: PoolView, connection: IdleView) -> PoolView {
    PoolView {
        idle: pool.idle.push(connection),
        counts: ConnectionCounts {
            peak_idle: raised(pool.counts.peak_idle, pool.idle.len() + 1),
            ..pool.counts
        },
        ..pool
    }
}

/// The pool without the idle connection at a position, which is evicted, and without its lease.
pub open spec fn dropped(pool: PoolView, at: int) -> PoolView {
    unleased(
        PoolView {
            idle: pool.idle.remove(at),
            counts: ConnectionCounts { evicted: grown(pool.counts.evicted, 1), ..pool.counts },
            ..pool
        },
        pool.idle[at].key,
    )
}

/// The pool once every connection is closed.
pub open spec fn all_unleased(pool: PoolView) -> PoolView {
    PoolView {
        leases: Seq::empty(),
        idle: Seq::empty(),
        counts: ConnectionCounts {
            closed: grown(pool.counts.closed, pool.leases.len()),
            ..pool.counts
        },
        ..pool
    }
}

/// The pool once an idle connection was used again.
pub open spec fn reuse_counted(pool: PoolView) -> PoolView {
    PoolView {
        counts: ConnectionCounts { reused: grown(pool.counts.reused, 1), ..pool.counts },
        ..pool
    }
}

/// The pool once the latest use of an idle connection turned out to be none.
pub open spec fn reuse_uncounted(pool: PoolView) -> PoolView {
    PoolView {
        counts: ConnectionCounts { reused: taken_back(pool.counts.reused), ..pool.counts },
        ..pool
    }
}

/// The pool once so many requests waited for a connection.
pub open spec fn wait_counted(pool: PoolView, waiting: nat) -> PoolView {
    PoolView {
        counts: ConnectionCounts {
            peak_waiting: raised(pool.counts.peak_waiting, waiting),
            ..pool.counts
        },
        ..pool
    }
}

proof fn lemma_first_key(keys: Seq<KeyView>, key: KeyView)
    ensures
        0 <= first_key(keys, key) <= keys.len(),
        first_key(keys, key) < keys.len() ==> keys[first_key(keys, key)] == key,
        forall|i: int| 0 <= i < first_key(keys, key) ==> #[trigger] keys[i] != key,
    decreases keys.len(),
{
    if keys.len() > 0 && keys[0] != key {
        lemma_first_key(keys.skip(1), key);
        assert forall|i: int| 0 <= i < first_key(keys, key) implies #[trigger] keys[i] != key by {
            if i > 0 {
                assert(keys.skip(1)[i - 1] == keys[i]);
            }
        }
    }
}

/// Where `first_key` points.
pub proof fn lemma_first_key_bounds(keys: Seq<KeyView>, key: KeyView)
    ensures
        0 <= first_key(keys, key) <= keys.len(),
        first_key(keys, key) < keys.len() ==> keys[first_key(keys, key)] == key,
{
    lemma_first_key(keys, key);
}

proof fn lemma_first_key_is(keys: Seq<KeyView>, key: KeyView, at: int)
    requires
        0 <= at <= keys.len(),
        at < keys.len() ==> keys[at] == key,
        forall|i: int| 0 <= i < at ==> #[trigger] keys[i] != key,
    ensures
        first_key(keys, key) == at,
{
    lemma_first_key(keys, key);
    let found = first_key(keys, key);
    if found < at {
        assert(keys[found] != key);
    } else if at < found {
        assert(keys[at] != key);
    }
}

/// A key that is added where it did not occur is found at the end.
pub proof fn lemma_first_key_pushed(keys: Seq<KeyView>, key: KeyView)
    requires
        first_key(keys, key) == keys.len(),
    ensures
        first_key(keys.push(key), key) == keys.len(),
{
    lemma_first_key(keys, key);
    lemma_first_key_is(keys.push(key), key, keys.len() as int);
}

/// Where an idle connection is found.
pub proof fn lemma_slot_position(idle: Seq<IdleView>, slot: u64)
    ensures
        0 <= slot_position(idle, slot) <= idle.len(),
        slot_position(idle, slot) < idle.len() ==> idle[slot_position(idle, slot)].slot == slot,
        forall|i: int| 0 <= i < slot_position(idle, slot) ==> (#[trigger] idle[i]).slot != slot,
    decreases idle.len(),
{
    if idle.len() > 0 && idle[0].slot != slot {
        lemma_slot_position(idle.skip(1), slot);
        assert forall|i: int| 0 <= i < slot_position(idle, slot) implies (#[trigger] idle[i]).slot
            != slot by {
            if i > 0 {
                assert(idle.skip(1)[i - 1] == idle[i]);
            }
        }
    }
}

proof fn lemma_slot_position_is(idle: Seq<IdleView>, slot: u64, at: int)
    requires
        0 <= at <= idle.len(),
        at < idle.len() ==> idle[at].slot == slot,
        forall|i: int| 0 <= i < at ==> (#[trigger] idle[i]).slot != slot,
    ensures
        slot_position(idle, slot) == at,
{
    lemma_slot_position(idle, slot);
    let found = slot_position(idle, slot);
    if found < at {
        assert(idle[found].slot != slot);
    } else if at < found {
        assert(idle[at].slot != slot);
    }
}

/// How a tally changes when one entry is taken out.
pub proof fn lemma_tally_remove(keys: Seq<KeyView>, at: int, key: KeyView)
    requires
        0 <= at < keys.len(),
    ensures
        tally(keys, key) == tally(keys.remove(at), key) + if keys[at] == key {
            1nat
        } else {
            0nat
        },
    decreases keys.len(),
{
    if at == keys.len() - 1 {
        assert(keys.remove(at) =~= keys.drop_last());
    } else {
        lemma_tally_remove(keys.drop_last(), at, key);
        assert(keys.remove(at).drop_last() =~= keys.drop_last().remove(at));
        assert(keys.remove(at).last() == keys.last());
    }
}

/// How a tally changes when one entry is added.
pub proof fn lemma_tally_push(keys: Seq<KeyView>, added: KeyView, key: KeyView)
    ensures
        tally(keys.push(added), key) == tally(keys, key) + if added == key {
            1nat
        } else {
            0nat
        },
{
    assert(keys.push(added).drop_last() =~= keys);
}

/// A key occurs if and only if its tally is not zero.
pub proof fn lemma_tally_positive(keys: Seq<KeyView>, key: KeyView)
    ensures
        tally(keys, key) > 0 <==> first_key(keys, key) < keys.len(),
        tally(keys, key) <= keys.len(),
    decreases keys.len(),
{
    lemma_first_key(keys, key);
    if keys.len() > 0 {
        lemma_tally_positive(keys.drop_last(), key);
        lemma_first_key(keys.drop_last(), key);
        let shorter = first_key(keys.drop_last(), key);
        if shorter < keys.len() - 1 {
            assert(keys[shorter] == key);
            assert forall|i: int| 0 <= i < shorter implies #[trigger] keys[i] != key by {
                assert(keys.drop_last()[i] == keys[i]);
            }
            lemma_first_key_is(keys, key, shorter);
        } else if keys.last() == key {
            assert forall|i: int| 0 <= i < keys.len() - 1 implies #[trigger] keys[i] != key by {
                assert(keys.drop_last()[i] == keys[i]);
            }
            lemma_first_key_is(keys, key, keys.len() - 1);
        } else {
            assert forall|i: int| 0 <= i < keys.len() implies #[trigger] keys[i] != key by {
                if i < keys.len() - 1 {
                    assert(keys.drop_last()[i] == keys[i]);
                }
            }
            lemma_first_key_is(keys, key, keys.len() as int);
        }
    }
}

/// Taking out the first occurrence of a key lowers its tally, and no other.
pub proof fn lemma_tally_without(keys: Seq<KeyView>, gone: KeyView, key: KeyView)
    ensures
        tally(without(keys, gone), key) == (if gone == key && tally(keys, gone) > 0 {
            (tally(keys, key) - 1) as nat
        } else {
            tally(keys, key)
        }),
        tally(keys, gone) > 0 ==> without(keys, gone).len() + 1 == keys.len(),
        tally(keys, gone) > 0 <==> first_key(keys, gone) < keys.len(),
{
    lemma_first_key(keys, gone);
    lemma_tally_positive(keys, gone);
    let at = first_key(keys, gone);
    if at < keys.len() {
        lemma_tally_remove(keys, at, key);
    }
}

proof fn lemma_idle_keys_remove(idle: Seq<IdleView>, at: int)
    requires
        0 <= at < idle.len(),
    ensures
        idle_keys(idle.remove(at)) == idle_keys(idle).remove(at),
{
    assert(idle_keys(idle.remove(at)) =~= idle_keys(idle).remove(at));
}

/// Dropping an idle connection keeps the pool in order, and frees exactly one connection to its
/// origin.
pub proof fn lemma_dropped_ok(pool: PoolView, at: int)
    requires
        pool_ok(pool),
        0 <= at < pool.idle.len(),
    ensures
        pool_ok(dropped(pool, at)),
        dropped(pool, at).leases.len() + 1 == pool.leases.len(),
        tally(dropped(pool, at).leases, pool.idle[at].key) + 1 == tally(
            pool.leases,
            pool.idle[at].key,
        ),
{
    let gone = pool.idle[at].key;
    let next = dropped(pool, at);
    lemma_idle_keys_remove(pool.idle, at);
    assert(idle_keys(pool.idle)[at] == gone);
    lemma_tally_remove(idle_keys(pool.idle), at, gone);
    assert(tally(pool.leases, gone) > 0) by {
        assert(tally(idle_keys(pool.idle), gone) <= tally(pool.leases, gone));
    }
    lemma_tally_without(pool.leases, gone, gone);
    assert forall|key: KeyView| #[trigger] tally(next.leases, key) <= pool.limits.per_origin by {
        lemma_tally_without(pool.leases, gone, key);
        assert(tally(pool.leases, key) <= pool.limits.per_origin);
    }
    assert forall|key: KeyView|
        #[trigger] tally(idle_keys(next.idle), key) <= pool.limits.idle_per_origin by {
        lemma_tally_remove(idle_keys(pool.idle), at, key);
        assert(tally(idle_keys(pool.idle), key) <= pool.limits.idle_per_origin);
    }
    assert forall|key: KeyView|
        #[trigger] tally(idle_keys(next.idle), key) <= tally(next.leases, key) by {
        lemma_tally_remove(idle_keys(pool.idle), at, key);
        lemma_tally_without(pool.leases, gone, key);
        assert(tally(idle_keys(pool.idle), key) <= tally(pool.leases, key));
    }
}

impl ConnectionPool {
    pub open spec fn wf(&self) -> bool {
        pool_ok(self@)
    }

    /// A pool without connections.
    pub fn new(limits: ConnectionLimits) -> (result: Self)
        ensures
            result.wf(),
            result@ == (PoolView {
                limits,
                leases: Seq::empty(),
                idle: Seq::empty(),
                counts: no_counts(),
            }),
    {
        let counts = ConnectionCounts {
            opened: 0,
            closed: 0,
            reused: 0,
            evicted: 0,
            peak_active: 0,
            peak_idle: 0,
            peak_waiting: 0,
        };
        let pool = ConnectionPool { limits, leases: Vec::new(), idle: Vec::new(), counts };
        assert(pool@.leases =~= Seq::empty());
        assert(pool@.idle =~= Seq::empty());
        assert(idle_keys(pool@.idle) =~= Seq::empty());
        pool
    }

    fn count_leases(&self, key: &ConnectionKey) -> (result: usize)
        ensures
            result == tally(self@.leases, key@),
    {
        let ghost keys = self@.leases;
        let mut count: usize = 0;
        let mut i: usize = 0;
        assert(keys.take(0) =~= Seq::empty());
        while i < self.leases.len()
            invariant
                keys == self@.leases,
                i <= self.leases@.len(),
                count <= i,
                count == tally(keys.take(i as int), key@),
            decreases self.leases@.len() - i,
        {
            assert(keys.take(i + 1).drop_last() =~= keys.take(i as int));
            if same_key(&self.leases[i], key) {
                count += 1;
            }
            i += 1;
        }
        assert(keys.take(i as int) =~= keys);
        count
    }

    fn count_idle(&self, key: &ConnectionKey) -> (result: usize)
        ensures
            result == tally(idle_keys(self@.idle), key@),
    {
        let ghost keys = idle_keys(self@.idle);
        let mut count: usize = 0;
        let mut i: usize = 0;
        assert(keys.take(0) =~= Seq::empty());
        while i < self.idle.len()
            invariant
                keys == idle_keys(self@.idle),
                i <= self.idle@.len(),
                count <= i,
                count == tally(keys.take(i as int), key@),
            decreases self.idle@.len() - i,
        {
            assert(keys.take(i + 1).drop_last() =~= keys.take(i as int));
            if same_key(&self.idle[i].key, key) {
                count += 1;
            }
            i += 1;
        }
        assert(keys.take(i as int) =~= keys);
        count
    }

    /// Reports whether one more connection may be made.
    pub fn can_reserve_connection(&self, key: &ConnectionKey) -> (result: bool)
        ensures
            result == may_reserve(self@, key@),
    {
        self.leases.len() < self.limits.global && self.count_leases(key) < self.limits.per_origin
    }

    /// Takes a lease for one more connection, where the limits allow it.
    pub fn reserve_connection(&mut self, key: &ConnectionKey) -> (result: bool)
        requires
            old(self).wf(),
        ensures
            final(self).wf(),
            result == may_reserve(old(self)@, key@),
            result ==> final(self)@ == leased(old(self)@, key@),
            !result ==> final(self)@ == old(self)@,
    {
        if !self.can_reserve_connection(key) {
            return false;
        }
        self.leases.push(key.clone());
        self.counts.opened = self.counts.opened.saturating_add(1);
        self.counts.peak_active = raise(self.counts.peak_active, self.leases.len());
        proof {
            let before = old(self)@;
            assert(self@.leases =~= before.leases.push(key@));
            assert(self@.idle =~= before.idle);
            assert forall|other: KeyView|
                #[trigger] tally(self@.leases, other) <= self@.limits.per_origin by {
                lemma_tally_push(before.leases, key@, other);
                assert(tally(before.leases, other) <= before.limits.per_origin);
            }
            assert forall|other: KeyView|
                #[trigger] tally(idle_keys(self@.idle), other) <= tally(self@.leases, other) by {
                lemma_tally_push(before.leases, key@, other);
                assert(tally(idle_keys(before.idle), other) <= tally(before.leases, other));
            }
        }
        true
    }

    /// Gives back a lease. Nothing happens where there is none.
    pub fn release_connection(&mut self, key: &ConnectionKey)
        requires
            old(self).wf(),
            tally(idle_keys(old(self)@.idle), key@) < tally(old(self)@.leases, key@) || tally(
                old(self)@.leases,
                key@,
            ) == 0,
        ensures
            final(self).wf(),
            final(self)@ == unleased(old(self)@, key@),
    {
        self.remove_lease(key);
        proof {
            let before = old(self)@;
            assert forall|other: KeyView|
                #[trigger] tally(self@.leases, other) <= self@.limits.per_origin by {
                lemma_tally_without(before.leases, key@, other);
                assert(tally(before.leases, other) <= before.limits.per_origin);
            }
            assert forall|other: KeyView|
                #[trigger] tally(idle_keys(self@.idle), other) <= tally(self@.leases, other) by {
                lemma_tally_without(before.leases, key@, other);
                assert(tally(idle_keys(before.idle), other) <= tally(before.leases, other));
            }
            lemma_tally_without(before.leases, key@, key@);
            lemma_tally_positive(before.leases, key@);
        }
    }

    fn remove_lease(&mut self, key: &ConnectionKey)
        ensures
            final(self)@ == unleased(old(self)@, key@),
    {
        let ghost keys = self@.leases;
        let mut at: usize = 0;
        while at < self.leases.len()
            invariant
                self@ == old(self)@,
                keys == self@.leases,
                at <= self.leases@.len(),
                forall|i: int| 0 <= i < at ==> #[trigger] keys[i] != key@,
            decreases self.leases@.len() - at,
        {
            if same_key(&self.leases[at], key) {
                proof {
                    lemma_first_key_is(keys, key@, at as int);
                }
                self.leases.remove(at);
                self.counts.closed = self.counts.closed.saturating_add(1);
                assert(self@.leases =~= keys.remove(at as int));
                assert(self@.idle =~= old(self)@.idle);
                return;
            }
            at += 1;
        }
        proof {
            lemma_first_key_is(keys, key@, at as int);
        }
    }

    fn find_idle_key(&self, key: &ConnectionKey) -> (result: usize)
        ensures
            result == first_key(idle_keys(self@.idle), key@),
            result <= self@.idle.len(),
    {
        let ghost keys = idle_keys(self@.idle);
        let mut at: usize = 0;
        while at < self.idle.len()
            invariant
                keys == idle_keys(self@.idle),
                at <= self.idle@.len(),
                forall|i: int| 0 <= i < at ==> #[trigger] keys[i] != key@,
            decreases self.idle@.len() - at,
        {
            if same_key(&self.idle[at].key, key) {
                proof {
                    lemma_first_key_is(keys, key@, at as int);
                }
                return at;
            }
            at += 1;
        }
        proof {
            lemma_first_key_is(keys, key@, at as int);
        }
        at
    }

    fn find_idle_slot(&self, slot: u64) -> (result: usize)
        ensures
            result == slot_position(self@.idle, slot),
            result <= self@.idle.len(),
    {
        let ghost idle = self@.idle;
        let mut at: usize = 0;
        while at < self.idle.len()
            invariant
                idle == self@.idle,
                at <= self.idle@.len(),
                forall|i: int| 0 <= i < at ==> (#[trigger] idle[i]).slot != slot,
            decreases self.idle@.len() - at,
        {
            if self.idle[at].slot == slot {
                proof {
                    lemma_slot_position_is(idle, slot, at as int);
                }
                return at;
            }
            at += 1;
        }
        proof {
            lemma_slot_position_is(idle, slot, at as int);
        }
        at
    }

    /// Reports whether a slot holds an idle connection.
    pub fn is_idle(&self, slot: u64) -> (result: bool)
        ensures
            result == (slot_position(self@.idle, slot) < self@.idle.len()),
    {
        self.find_idle_slot(slot) < self.idle.len()
    }

    /// Reports whether one more connection may become idle.
    pub fn can_park(&self, key: &ConnectionKey) -> (result: bool)
        ensures
            result == may_park(self@, key@),
    {
        self.limits.idle_timeout != 0 && self.idle.len() < self.limits.idle_global
            && self.count_idle(key) < self.limits.idle_per_origin
    }

    /// Makes a leased connection idle.
    pub fn park(&mut self, slot: u64, key: ConnectionKey, tls: Option<TlsPhase>, expires_at: u64)
        requires
            old(self).wf(),
            may_park(old(self)@, key@),
            tally(idle_keys(old(self)@.idle), key@) < tally(old(self)@.leases, key@),
            slot_position(old(self)@.idle, slot) == old(self)@.idle.len(),
        ensures
            final(self).wf(),
            final(self)@ == rested(
                old(self)@,
                IdleView { slot, key: key@, tls, expires_at, noisy: false },
            ),
    {
        let ghost added = IdleView { slot, key: key@, tls, expires_at, noisy: false };
        self.idle.push(IdleConnection { slot, key, tls, expires_at, noisy: false });
        self.counts.peak_idle = raise(self.counts.peak_idle, self.idle.len());
        proof {
            let before = old(self)@;
            assert(self@.idle =~= before.idle.push(added));
            assert(self@.leases =~= before.leases);
            assert(idle_keys(self@.idle) =~= idle_keys(before.idle).push(key@));
            assert forall|other: KeyView|
                #[trigger] tally(idle_keys(self@.idle), other)
                    <= self@.limits.idle_per_origin by {
                lemma_tally_push(idle_keys(before.idle), key@, other);
                assert(tally(idle_keys(before.idle), other) <= before.limits.idle_per_origin);
            }
            assert forall|other: KeyView|
                #[trigger] tally(idle_keys(self@.idle), other) <= tally(self@.leases, other) by {
                lemma_tally_push(idle_keys(before.idle), key@, other);
                assert(tally(idle_keys(before.idle), other) <= tally(before.leases, other));
            }
            lemma_slot_position(before.idle, slot);
        }
    }

    /// Takes the oldest idle connection to an origin; its lease stays.
    pub fn take_idle(&mut self, key: &ConnectionKey) -> (result: Option<IdleConnection>)
        requires
            old(self).wf(),
        ensures
            final(self).wf(),
            match result {
                Some(connection) => {
                    let at = first_key(idle_keys(old(self)@.idle), key@);
                    &&& at < old(self)@.idle.len()
                    &&& connection@ == old(self)@.idle[at]
                    &&& connection@.key == key@
                    &&& final(self)@ == (PoolView {
                        idle: old(self)@.idle.remove(at),
                        ..old(self)@
                    })
                    &&& tally(idle_keys(final(self)@.idle), key@) + 1 == tally(
                        idle_keys(old(self)@.idle),
                        key@,
                    )
                },
                None => tally(idle_keys(old(self)@.idle), key@) == 0 && final(self)@ == old(self)@,
            },
    {
        let at = self.find_idle_key(key);
        proof {
            lemma_tally_positive(idle_keys(self@.idle), key@);
        }
        if at >= self.idle.len() {
            return None;
        }
        let connection = self.idle.remove(at);
        proof {
            let before = old(self)@;
            lemma_first_key(idle_keys(before.idle), key@);
            assert(self@.idle =~= before.idle.remove(at as int));
            assert(self@.leases =~= before.leases);
            lemma_idle_keys_remove(before.idle, at as int);
            assert(idle_keys(before.idle)[at as int] == key@);
            lemma_tally_remove(idle_keys(before.idle), at as int, key@);
            assert forall|other: KeyView|
                #[trigger] tally(idle_keys(self@.idle), other)
                    <= self@.limits.idle_per_origin by {
                lemma_tally_remove(idle_keys(before.idle), at as int, other);
                assert(tally(idle_keys(before.idle), other) <= before.limits.idle_per_origin);
            }
            assert forall|other: KeyView|
                #[trigger] tally(idle_keys(self@.idle), other) <= tally(self@.leases, other) by {
                lemma_tally_remove(idle_keys(before.idle), at as int, other);
                assert(tally(idle_keys(before.idle), other) <= tally(before.leases, other));
            }
        }
        Some(connection)
    }

    fn drop_at(&mut self, at: usize) -> (result: u64)
        requires
            old(self).wf(),
            at < old(self)@.idle.len(),
        ensures
            final(self).wf(),
            final(self)@ == dropped(old(self)@, at as int),
            result == old(self)@.idle[at as int].slot,
    {
        proof {
            lemma_dropped_ok(self@, at as int);
        }
        let connection = self.idle.remove(at);
        self.counts.evicted = self.counts.evicted.saturating_add(1);
        assert(self@.idle =~= old(self)@.idle.remove(at as int));
        assert(self@.leases =~= old(self)@.leases);
        self.remove_lease(&connection.key);
        connection.slot
    }

    /// Drops the idle connection in a slot together with its lease; reports whether there was one.
    pub fn discard_idle_slot(&mut self, slot: u64) -> (result: bool)
        requires
            old(self).wf(),
        ensures
            final(self).wf(),
            result == (slot_position(old(self)@.idle, slot) < old(self)@.idle.len()),
            result ==> final(self)@ == dropped(
                old(self)@,
                slot_position(old(self)@.idle, slot),
            ),
            !result ==> final(self)@ == old(self)@,
    {
        let at = self.find_idle_slot(slot);
        if at < self.idle.len() {
            self.drop_at(at);
            true
        } else {
            false
        }
    }

    /// Drops the oldest idle connection to an origin, if there is one, and names its slot.
    pub fn evict_idle_for_key(&mut self, key: &ConnectionKey) -> (result: Option<u64>)
        requires
            old(self).wf(),
        ensures
            final(self).wf(),
            match result {
                Some(slot) => {
                    let at = first_key(idle_keys(old(self)@.idle), key@);
                    &&& at < old(self)@.idle.len()
                    &&& slot == old(self)@.idle[at].slot
                    &&& final(self)@ == dropped(old(self)@, at)
                },
                None => first_key(idle_keys(old(self)@.idle), key@) == old(self)@.idle.len()
                    && final(self)@ == old(self)@,
            },
    {
        let at = self.find_idle_key(key);
        if at < self.idle.len() {
            Some(self.drop_at(at))
        } else {
            None
        }
    }

    /// Drops the oldest idle connection, if there is one, and names its slot.
    pub fn evict_any_idle(&mut self) -> (result: Option<u64>)
        requires
            old(self).wf(),
        ensures
            final(self).wf(),
            match result {
                Some(slot) => {
                    &&& old(self)@.idle.len() > 0
                    &&& slot == old(self)@.idle[0].slot
                    &&& final(self)@ == dropped(old(self)@, 0)
                },
                None => old(self)@.idle.len() == 0 && final(self)@ == old(self)@,
            },
    {
        if self.idle.len() > 0 {
            Some(self.drop_at(0))
        } else {
            None
        }
    }

    /// Makes room for one more connection to an origin by dropping idle ones: first those to the same
    /// origin, as long as its own limit is reached, then any, as long as the limit on all is. Names
    /// the slots of those that were dropped, and reports whether there is room.
    pub fn make_connection_capacity(&mut self, key: &ConnectionKey) -> (result: (bool, Vec<u64>))
        requires
            old(self).wf(),
        ensures
            final(self).wf(),
            room_made(old(self)@, key@) == (RoomMade {
                pool: final(self)@,
                room: result.0,
                dropped: result.1@,
            }),
    {
        let mut evicted: Vec<u64> = Vec::new();
        let ghost start = self@;
        while self.count_leases(key) >= self.limits.per_origin
            invariant
                self.wf(),
                start == old(self)@,
                self@.limits == start.limits,
                room_made(start, key@) == prefixed(evicted@, room_made(self@, key@)),
            decreases self@.idle.len(),
        {
            let ghost before = self@;
            let ghost names = evicted@;
            proof {
                lemma_first_key(idle_keys(before.idle), key@);
            }
            match self.evict_idle_for_key(key) {
                Some(slot) => {
                    evicted.push(slot);
                    proof {
                        let rest = room_made(self@, key@);
                        assert(names + (seq![slot] + rest.dropped) =~= evicted@ + rest.dropped);
                    }
                },
                None => {
                    assert(evicted@ + Seq::<u64>::empty() =~= evicted@);
                    return (false, evicted);
                },
            }
        }
        while self.leases.len() >= self.limits.global
            invariant
                self.wf(),
                start == old(self)@,
                self@.limits == start.limits,
                room_made(start, key@) == prefixed(evicted@, room_made(self@, key@)),
                tally(self@.leases, key@) < self@.limits.per_origin,
            decreases self@.idle.len(),
        {
            let ghost before = self@;
            let ghost names = evicted@;
            proof {
                if before.idle.len() > 0 {
                    lemma_tally_without(before.leases, before.idle[0].key, key@);
                }
            }
            match self.evict_any_idle() {
                Some(slot) => {
                    evicted.push(slot);
                    proof {
                        let rest = room_made(self@, key@);
                        assert(names + (seq![slot] + rest.dropped) =~= evicted@ + rest.dropped);
                    }
                },
                None => {
                    assert(evicted@ + Seq::<u64>::empty() =~= evicted@);
                    return (false, evicted);
                },
            }
        }
        assert(evicted@ + Seq::<u64>::empty() =~= evicted@);
        (true, evicted)
    }

    /// Drops every idle connection whose time has come, and names their slots.
    pub fn expire_idle(&mut self, now: u64) -> (result: Vec<u64>)
        requires
            old(self).wf(),
        ensures
            final(self).wf(),
            idle_expired(old(self)@, now, 0) == (final(self)@, result@),
    {
        let mut expired: Vec<u64> = Vec::new();
        let mut at: usize = 0;
        let ghost start = self@;
        assert(expired@ + idle_expired(start, now, 0).1 =~= idle_expired(start, now, 0).1);
        while at < self.idle.len()
            invariant
                self.wf(),
                at <= self@.idle.len(),
                idle_expired(start, now, 0) == (
                    idle_expired(self@, now, at as nat).0,
                    expired@ + idle_expired(self@, now, at as nat).1,
                ),
            decreases self@.idle.len() - at,
        {
            if self.idle[at].expires_at <= now {
                let ghost names = expired@;
                let slot = self.drop_at(at);
                expired.push(slot);
                proof {
                    let rest = idle_expired(self@, now, at as nat).1;
                    assert(names + (seq![slot] + rest) =~= expired@ + rest);
                }
            } else {
                at += 1;
            }
        }
        assert(expired@ + Seq::<u64>::empty() =~= expired@);
        expired
    }

    /// Closes every connection.
    pub fn close_connections(&mut self)
        requires
            old(self).wf(),
        ensures
            final(self).wf(),
            final(self)@ == all_unleased(old(self)@),
    {
        self.counts.closed = self.counts.closed.saturating_add(self.leases.len() as u64);
        self.leases.clear();
        self.idle.clear();
        proof {
            assert(self@.leases =~= Seq::empty());
            assert(self@.idle =~= Seq::empty());
            assert(idle_keys(self@.idle) =~= Seq::empty());
        }
    }

    /// Counts that an idle connection was used again.
    pub fn count_reuse(&mut self)
        ensures
            final(self)@ == reuse_counted(old(self)@),
    {
        self.counts.reused = self.counts.reused.saturating_add(1);
        assert(self@.leases =~= old(self)@.leases);
        assert(self@.idle =~= old(self)@.idle);
    }

    /// Takes back that an idle connection was used again.
    pub fn uncount_reuse(&mut self)
        ensures
            final(self)@ == reuse_uncounted(old(self)@),
    {
        if 0 < self.counts.reused && self.counts.reused < u64::MAX {
            self.counts.reused = self.counts.reused - 1;
        }
        assert(self@.leases =~= old(self)@.leases);
        assert(self@.idle =~= old(self)@.idle);
    }

    /// Counts that so many requests wait for a connection.
    pub fn count_waiting(&mut self, waiting: usize)
        ensures
            final(self)@ == wait_counted(old(self)@, waiting as nat),
    {
        self.counts.peak_waiting = raise(self.counts.peak_waiting, waiting);
        assert(self@.leases =~= old(self)@.leases);
        assert(self@.idle =~= old(self)@.idle);
    }

    /// Remembers that something arrived on an idle connection.
    pub fn mark_noisy(&mut self, slot: u64)
        requires
            old(self).wf(),
        ensures
            final(self).wf(),
            final(self)@ == marked(old(self)@, slot),
    {
        let at = self.find_idle_slot(slot);
        if at < self.idle.len() {
            let mut connection = self.idle.remove(at);
            connection.noisy = true;
            self.idle.insert(at, connection);
            proof {
                lemma_slot_position(old(self)@.idle, slot);
                assert(self@.idle =~= marked(old(self)@, slot).idle);
                assert(self@.leases =~= old(self)@.leases);
                assert(idle_keys(self@.idle) =~= idle_keys(old(self)@.idle));
            }
        }
    }
}

/// The pool with one idle connection marked.
pub open spec fn marked(pool: PoolView, slot: u64) -> PoolView {
    let at = slot_position(pool.idle, slot);
    if at < pool.idle.len() {
        PoolView {
            idle: pool.idle.update(at, IdleView { noisy: true, ..pool.idle[at] }),
            ..pool
        }
    } else {
        pool
    }
}

/// What making room led to.
#[verifier::ext_equal]
pub struct RoomMade {
    pub pool: PoolView,
    pub room: bool,
    pub dropped: Seq<u64>,
}

/// The same with some slots dropped before.
pub open spec fn prefixed(earlier: Seq<u64>, made: RoomMade) -> RoomMade {
    RoomMade { dropped: earlier + made.dropped, ..made }
}

/// What making room for one more connection to an origin leads to.
pub open spec fn room_made(pool: PoolView, key: KeyView) -> RoomMade
    decreases pool.idle.len(),
{
    let own = first_key(idle_keys(pool.idle), key);
    if tally(pool.leases, key) >= pool.limits.per_origin {
        if 0 <= own < pool.idle.len() {
            prefixed(seq![pool.idle[own].slot], room_made(dropped(pool, own), key))
        } else {
            RoomMade { pool, room: false, dropped: Seq::empty() }
        }
    } else if pool.leases.len() >= pool.limits.global {
        if pool.idle.len() > 0 {
            prefixed(seq![pool.idle[0].slot], room_made(dropped(pool, 0), key))
        } else {
            RoomMade { pool, room: false, dropped: Seq::empty() }
        }
    } else {
        RoomMade { pool, room: true, dropped: Seq::empty() }
    }
}

/// The pool without the idle connections, from a position on, whose time has come, and their slots.
pub open spec fn idle_expired(pool: PoolView, now: u64, from: nat) -> (PoolView, Seq<u64>)
    decreases pool.idle.len() - from,
{
    if from >= pool.idle.len() {
        (pool, Seq::empty())
    } else if pool.idle[from as int].expires_at <= now {
        let (rest, slots) = idle_expired(dropped(pool, from as int), now, from);
        (rest, seq![pool.idle[from as int].slot] + slots)
    } else {
        idle_expired(pool, now, from + 1)
    }
}

/// Room that was made is real: the connection may then be reserved. Where there is none, every
/// connection that stands in the way is in use.
pub proof fn lemma_room_is_real(pool: PoolView, key: KeyView)
    requires
        pool_ok(pool),
    ensures
        room_made(pool, key).room <==> may_reserve(room_made(pool, key).pool, key),
        !room_made(pool, key).room ==> {
            let left = room_made(pool, key).pool;
            ||| tally(left.leases, key) >= left.limits.per_origin && tally(
                idle_keys(left.idle),
                key,
            ) == 0
            ||| left.leases.len() >= left.limits.global && left.idle.len() == 0
        },
        room_made(pool, key).pool.limits == pool.limits,
        pool_ok(room_made(pool, key).pool),
    decreases pool.idle.len(),
{
    let own = first_key(idle_keys(pool.idle), key);
    lemma_first_key(idle_keys(pool.idle), key);
    lemma_tally_positive(idle_keys(pool.idle), key);
    if tally(pool.leases, key) >= pool.limits.per_origin {
        if 0 <= own < pool.idle.len() {
            lemma_dropped_ok(pool, own);
            lemma_room_is_real(dropped(pool, own), key);
        }
    } else if pool.leases.len() >= pool.limits.global {
        if pool.idle.len() > 0 {
            lemma_dropped_ok(pool, 0);
            lemma_room_is_real(dropped(pool, 0), key);
        }
    }
}

/// Taking an idle connection into use keeps the pool in order.
pub proof fn lemma_idle_used_ok(pool: PoolView, at: int)
    requires
        pool_ok(pool),
        0 <= at < pool.idle.len(),
    ensures
        pool_ok(PoolView { idle: pool.idle.remove(at), ..pool }),
{
    let left = pool.idle.remove(at);
    lemma_idle_keys_remove(pool.idle, at);
    assert forall|other: KeyView|
        #[trigger] tally(idle_keys(left), other) <= pool.limits.idle_per_origin && tally(
            idle_keys(left),
            other,
        ) <= tally(pool.leases, other) by {
        lemma_tally_remove(idle_keys(pool.idle), at, other);
        assert(tally(idle_keys(pool.idle), other) <= pool.limits.idle_per_origin);
        assert(tally(idle_keys(pool.idle), other) <= tally(pool.leases, other));
    }
}

/// Leasing one more connection, where the limits allow it, keeps the pool in order.
pub proof fn lemma_leased_ok(pool: PoolView, key: KeyView)
    requires
        pool_ok(pool),
        may_reserve(pool, key),
    ensures
        pool_ok(leased(pool, key)),
        pool_ok(unleased(leased(pool, key), key)),
{
    let more = pool.leases.push(key);
    assert forall|other: KeyView|
        #[trigger] tally(more, other) <= pool.limits.per_origin && tally(
            idle_keys(pool.idle),
            other,
        ) <= tally(more, other) by {
        lemma_tally_push(pool.leases, key, other);
        assert(tally(pool.leases, other) <= pool.limits.per_origin);
        assert(tally(idle_keys(pool.idle), other) <= tally(pool.leases, other));
    }
    let again = without(more, key);
    assert(again.len() == pool.leases.len()) by {
        lemma_release_undoes_reserve(pool.leases, key, key);
        lemma_tally_push(pool.leases, key, key);
        lemma_tally_positive(more, key);
    }
    assert forall|other: KeyView|
        #[trigger] tally(again, other) <= pool.limits.per_origin && tally(
            idle_keys(pool.idle),
            other,
        ) <= tally(again, other) by {
        lemma_release_undoes_reserve(pool.leases, key, other);
        assert(tally(pool.leases, other) <= pool.limits.per_origin);
        assert(tally(idle_keys(pool.idle), other) <= tally(pool.leases, other));
    }
    assert forall|other: KeyView|
        #[trigger] tally(idle_keys(pool.idle), other) <= tally(again, other) by {
        assert(tally(again, other) <= pool.limits.per_origin);
    }
    assert forall|other: KeyView|
        #[trigger] tally(idle_keys(pool.idle), other) <= tally(more, other) by {
        assert(tally(more, other) <= pool.limits.per_origin);
    }
}

/// What is reserved and then released leaves every count as it was.
pub proof fn lemma_release_undoes_reserve(leases: Seq<KeyView>, key: KeyView, other: KeyView)
    ensures
        tally(without(leases.push(key), key), other) == tally(leases, other),
        without(leases.push(key), key).len() == leases.len(),
{
    lemma_tally_push(leases, key, key);
    lemma_tally_push(leases, key, other);
    lemma_tally_without(leases.push(key), key, other);
}

/// A limit of zero on idle connections, or no time to be idle, turns reuse off.
pub proof fn lemma_zero_idle_limit_disables_reuse(pool: PoolView, key: KeyView)
    requires
        pool.limits.idle_global == 0 || pool.limits.idle_per_origin == 0
            || pool.limits.idle_timeout == 0,
    ensures
        !may_park(pool, key),
{
}

} // verus!
