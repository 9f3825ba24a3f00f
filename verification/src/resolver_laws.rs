//! What holds of every name lookup: which addresses are chosen, and how it ends.

use crate::control::lemma_first_number_is;
use crate::failure::public_lookup_expired;
use crate::pool_laws::lemma_filter_first;
use crate::resolver::{
    answered, lookup_numbers, of_kind, recalled, resolve_answered, resolve_cancelled,
    resolve_submitted, resolves_expired, selected, AddressFamily, AddressOrder, LookupsView,
    PublicLookup, QueryView, ResolutionView, ResolverEffectView,
};
use crate::table::{found, holds, without_id};
use crate::tcp_laws::falls_due;
use crate::types::{plain_error, timeout_error, ErrorKind, ErrorView, TimeoutKind};
use vstd::prelude::*;
use vstd::string::*;

verus! {

/// The addresses of one kind among those found, in order.
pub open spec fn kind_of(found: Seq<(Seq<u8>, bool)>, ipv6: bool) -> Seq<Seq<u8>> {
    found.filter(|address: (Seq<u8>, bool)| address.1 == ipv6).map_values(
        |address: (Seq<u8>, bool)| address.0,
    )
}

proof fn lemma_of_kind(found: Seq<(Seq<u8>, bool)>, family: AddressFamily, ipv6: bool)
    ensures
        of_kind(found, family, ipv6) == if (family is Ipv4 && ipv6) || (family is Ipv6 && !ipv6) {
            Seq::<Seq<u8>>::empty()
        } else {
            kind_of(found, ipv6)
        },
    decreases found.len(),
{
    reveal(Seq::filter);
    if found.len() > 0 {
        lemma_of_kind(found.drop_last(), family, ipv6);
        if found.last().1 == ipv6 {
            assert(kind_of(found, ipv6) =~= kind_of(found.drop_last(), ipv6).push(found.last().0));
        } else {
            assert(kind_of(found, ipv6) =~= kind_of(found.drop_last(), ipv6));
        }
    } else {
        assert(kind_of(found, ipv6) =~= Seq::<Seq<u8>>::empty());
    }
}

/// The addresses that a lookup gives are those of the wanted family, each kind in the order in which it
/// was found, the preferred kind first, and no more than were asked for.
pub proof fn lemma_wanted_addresses_are_chosen(found: Seq<(Seq<u8>, bool)>, query: QueryView)
    ensures
        ({
            let v4 = kind_of(found, false);
            let v6 = kind_of(found, true);
            let all = match query.family {
                AddressFamily::Ipv4 => v4,
                AddressFamily::Ipv6 => v6,
                AddressFamily::Both => match query.order {
                    AddressOrder::Ipv4ThenIpv6 => v4 + v6,
                    AddressOrder::Ipv6ThenIpv4 => v6 + v4,
                },
            };
            &&& all.len() <= query.max_results ==> selected(found, query) == all
            &&& all.len() > query.max_results ==> selected(found, query) == all.take(
                query.max_results as int,
            )
        }),
{
    lemma_of_kind(found, query.family, true);
    lemma_of_kind(found, query.family, false);
    let nothing = Seq::<Seq<u8>>::empty();
    assert(nothing + kind_of(found, true) =~= kind_of(found, true));
    assert(kind_of(found, true) + nothing =~= kind_of(found, true));
    assert(nothing + kind_of(found, false) =~= kind_of(found, false));
    assert(kind_of(found, false) + nothing =~= kind_of(found, false));
}

/// A lookup that took too long.
pub open spec fn took_too_long() -> ErrorView {
    timeout_error(TimeoutKind::Total, "the public resolution total timeout expired"@)
}

/// A lookup starts under a new number with exactly what was asked, unless there is no resolver or its
/// timeout has run out since it was accepted.
pub proof fn lemma_lookups_start_in_time(
    engine: LookupsView,
    id: u64,
    query: QueryView,
    timeout: Option<u64>,
    accepted_at: u64,
    now: u64,
    deadline: Option<u64>,
)
    requires
        falls_due(deadline, accepted_at, timeout),
        engine.next_resolve_key < u64::MAX,
    ensures
        ({
            let (next, refused) = resolve_submitted(engine, id, query, timeout, accepted_at, now);
            let late = deadline is Some && deadline->0 <= now;
            &&& !engine.has_resolver ==> next == engine && refused == Some(
                ResolutionView::Failed(
                    plain_error(
                        ErrorKind::Unsupported,
                        "public hostname resolution is not available on this Engine"@,
                    ),
                ),
            )
            &&& engine.has_resolver && late ==> next == engine && refused == Some(
                ResolutionView::Failed(took_too_long()),
            )
            &&& engine.has_resolver && !late ==> {
                &&& refused is None
                &&& next.effects == engine.effects.push(
                    ResolverEffectView::Locate { key: engine.next_resolve_key, query },
                )
                &&& next.lookups == engine.lookups.push(
                    (
                        engine.next_resolve_key,
                        PublicLookup { request_id: id, total_deadline: deadline },
                    ),
                )
                &&& next.next_resolve_key == engine.next_resolve_key + 1
                &&& next.done == engine.done
            }
        }),
{
}

/// An answer in time is passed on as it is; one that comes too late is replaced by the timeout, and the
/// lookup is called off. An answer that nobody waits for changes nothing.
pub proof fn lemma_answers_in_time_are_passed_on(
    engine: LookupsView,
    key: u64,
    resolution: ResolutionView,
    now: u64,
)
    ensures
        ({
            let next = resolve_answered(engine, key, resolution, now);
            let lookup = found(engine.lookups, key);
            let late = lookup.total_deadline is Some && lookup.total_deadline->0 <= now;
            &&& !holds(engine.lookups, key) ==> next == engine
            &&& holds(engine.lookups, key) ==> next.lookups == without_id(engine.lookups, key)
            &&& holds(engine.lookups, key) && !late ==> next.done == engine.done.push(
                (lookup.request_id, resolution),
            ) && next.effects == engine.effects
            &&& holds(engine.lookups, key) && late ==> next.done == engine.done.push(
                (lookup.request_id, ResolutionView::Failed(took_too_long())),
            ) && next.effects == engine.effects.push(ResolverEffectView::CancelLocate { key })
        }),
{
}

proof fn lemma_resolves_expired(engine: LookupsView, now: u64, from: nat)
    requires
        from <= engine.lookups.len(),
    ensures
        resolves_expired(engine, now, from).lookups == engine.lookups.take(from as int)
            + engine.lookups.skip(from as int).filter(
            |entry: (u64, PublicLookup)| !is_late(entry.1, now),
        ),
        resolves_expired(engine, now, from).done == engine.done + engine.lookups.skip(
            from as int,
        ).filter(|entry: (u64, PublicLookup)| is_late(entry.1, now)).map_values(
            |entry: (u64, PublicLookup)|
                (entry.1.request_id, ResolutionView::Failed(took_too_long())),
        ),
    decreases engine.lookups.len() - from,
{
    let on_time = |entry: (u64, PublicLookup)| !is_late(entry.1, now);
    let late = |entry: (u64, PublicLookup)| is_late(entry.1, now);
    let told = |entry: (u64, PublicLookup)|
        (entry.1.request_id, ResolutionView::Failed(took_too_long()));
    let rest = engine.lookups.skip(from as int);
    if from >= engine.lookups.len() {
        reveal(Seq::filter);
        assert(rest =~= Seq::<(u64, PublicLookup)>::empty());
        assert(rest.filter(on_time) =~= Seq::<(u64, PublicLookup)>::empty());
        assert(rest.filter(late) =~= Seq::<(u64, PublicLookup)>::empty());
        assert(engine.lookups.take(from as int) + rest.filter(on_time) =~= engine.lookups);
        assert(engine.done + rest.filter(late).map_values(told) =~= engine.done);
    } else {
        let first = engine.lookups[from as int];
        lemma_filter_first(rest, on_time);
        lemma_filter_first(rest, late);
        assert(rest[0] == first);
        if is_late(first.1, now) {
            let left = answered(
                recalled(
                    LookupsView { lookups: engine.lookups.remove(from as int), ..engine },
                    first.0,
                ),
                first.1.request_id,
                ResolutionView::Failed(public_lookup_expired()),
            );
            lemma_resolves_expired(left, now, from);
            assert(left.lookups.skip(from as int) =~= rest.skip(1));
            assert(left.lookups.take(from as int) =~= engine.lookups.take(from as int));
            assert(left.done + rest.skip(1).filter(late).map_values(told) =~= engine.done + (
            seq![first] + rest.skip(1).filter(late)).map_values(told));
        } else {
            lemma_resolves_expired(engine, now, from + 1);
            assert(engine.lookups.skip(from as int + 1) =~= rest.skip(1));
            assert(engine.lookups.take(from as int + 1) + rest.skip(1).filter(on_time)
                =~= engine.lookups.take(from as int) + (seq![first] + rest.skip(1).filter(
                on_time,
            )));
        }
    }
}

/// A lookup whose timeout has run out.
pub open spec fn is_late(lookup: PublicLookup, now: u64) -> bool {
    lookup.total_deadline is Some && lookup.total_deadline->0 <= now
}

/// Exactly the lookups whose timeout has run out end, each with the timeout.
pub proof fn lemma_only_late_public_lookups_end(engine: LookupsView, now: u64)
    ensures
        resolves_expired(engine, now, 0).lookups == engine.lookups.filter(
            |entry: (u64, PublicLookup)| !is_late(entry.1, now),
        ),
        resolves_expired(engine, now, 0).done == engine.done + engine.lookups.filter(
            |entry: (u64, PublicLookup)| is_late(entry.1, now),
        ).map_values(
            |entry: (u64, PublicLookup)|
                (entry.1.request_id, ResolutionView::Failed(took_too_long())),
        ),
{
    lemma_resolves_expired(engine, now, 0);
    let kept = engine.lookups.filter(|entry: (u64, PublicLookup)| !is_late(entry.1, now));
    assert(engine.lookups.skip(0) =~= engine.lookups);
    assert(engine.lookups.take(0) + kept =~= kept);
}

/// A lookup that is given up is called off; nothing is reported of it.
pub proof fn lemma_given_up_lookups_are_called_off(engine: LookupsView, id: u64, at: int)
    requires
        0 <= at <= engine.lookups.len(),
        at < engine.lookups.len() ==> engine.lookups[at].1.request_id == id,
        forall|i: int| 0 <= i < at ==> (#[trigger] engine.lookups[i]).1.request_id != id,
    ensures
        at < engine.lookups.len() ==> resolve_cancelled(engine, id) == (LookupsView {
            lookups: engine.lookups.remove(at),
            effects: engine.effects.push(
                ResolverEffectView::CancelLocate { key: engine.lookups[at].0 },
            ),
            ..engine
        }),
        at == engine.lookups.len() ==> resolve_cancelled(engine, id) == engine,
{
    let ids = lookup_numbers(engine.lookups);
    assert forall|i: int| 0 <= i < at implies #[trigger] ids[i] != id by {
        assert(ids[i] == engine.lookups[i].1.request_id);
    }
    lemma_first_number_is(ids, id, at);
}

} // verus!
