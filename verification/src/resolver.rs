//! Name lookups that are wanted for their own sake.

use crate::control::{first_number, lemma_first_number_is};
use crate::deadline::{deadline_after, due, has_passed, is_past};
use crate::dispatch::lookups_exhausted;
use crate::failure::public_lookup_expired;
use crate::table::{
    distinct, found, holds, lemma_added, lemma_position, lemma_position_at, lemma_without_id,
    without_id, Queue, Table,
};
use crate::tcp::address_views;
use crate::types::{copy_bytes, plain_error, Error, ErrorKind, ErrorView, TimeoutKind};
use vstd::prelude::*;
use vstd::string::*;

verus! {

/// Which addresses are wanted.
#[derive(Clone, Copy, Debug, PartialEq, Eq, Structural)]
pub enum AddressFamily {
    Ipv4,
    Ipv6,
    Both,
}

/// In which order addresses are wanted.
#[derive(Clone, Copy, Debug, PartialEq, Eq, Structural)]
pub enum AddressOrder {
    Ipv4ThenIpv6,
    Ipv6ThenIpv4,
}

/// Whether earlier answers may be used.
#[derive(Clone, Copy, Debug, PartialEq, Eq, Structural)]
pub enum CacheMode {
    Use,
    Bypass,
}

/// What is looked up.
#[derive(Debug)]
pub struct LookupQuery {
    pub host: Vec<u8>,
    pub family: AddressFamily,
    pub order: AddressOrder,
    pub cache_mode: CacheMode,
    pub max_results: usize,
    pub expand_search: bool,
}

/// What a [`LookupQuery`] says.
pub struct QueryView {
    pub host: Seq<u8>,
    pub family: AddressFamily,
    pub order: AddressOrder,
    pub cache_mode: CacheMode,
    pub max_results: usize,
    pub expand_search: bool,
}

impl View for LookupQuery {
    type V = QueryView;

    open spec fn view(&self) -> QueryView {
        QueryView {
            host: self.host@,
            family: self.family,
            order: self.order,
            cache_mode: self.cache_mode,
            max_results: self.max_results,
            expand_search: self.expand_search,
        }
    }
}

/// An address that was found.
#[derive(Debug)]
pub struct FoundAddress {
    pub text: Vec<u8>,
    pub ipv6: bool,
}

impl View for FoundAddress {
    type V = (Seq<u8>, bool);

    open spec fn view(&self) -> (Seq<u8>, bool) {
        (self.text@, self.ipv6)
    }
}

/// What some addresses are.
pub open spec fn found_views(found: Seq<FoundAddress>) -> Seq<(Seq<u8>, bool)> {
    found.map_values(|address: FoundAddress| address@)
}

/// Whether addresses of a kind are wanted.
pub open spec fn admits(family: AddressFamily, ipv6: bool) -> bool {
    match family {
        AddressFamily::Ipv4 => !ipv6,
        AddressFamily::Ipv6 => ipv6,
        AddressFamily::Both => true,
    }
}

/// The addresses of one kind, as they were found, where they are wanted.
pub open spec fn of_kind(found: Seq<(Seq<u8>, bool)>, family: AddressFamily, ipv6: bool) -> Seq<
    Seq<u8>,
>
    decreases found.len(),
{
    if found.len() == 0 {
        Seq::empty()
    } else {
        let earlier = of_kind(found.drop_last(), family, ipv6);
        if found.last().1 == ipv6 && admits(family, ipv6) {
            earlier.push(found.last().0)
        } else {
            earlier
        }
    }
}

/// The addresses that a lookup is answered with: of the wanted kinds, in the wanted order, and no more
/// than are wanted.
pub open spec fn selected(found: Seq<(Seq<u8>, bool)>, query: QueryView) -> Seq<Seq<u8>> {
    let first = query.order is Ipv6ThenIpv4;
    let all = of_kind(found, query.family, first) + of_kind(found, query.family, !first);
    if all.len() <= query.max_results {
        all
    } else {
        all.take(query.max_results as int)
    }
}

fn is_wanted(family: AddressFamily, ipv6: bool) -> (result: bool)
    ensures
        result == admits(family, ipv6),
{
    match family {
        AddressFamily::Ipv4 => !ipv6,
        AddressFamily::Ipv6 => ipv6,
        AddressFamily::Both => true,
    }
}

fn append_kind(
    texts: &mut Vec<Vec<u8>>,
    found: &Vec<FoundAddress>,
    family: AddressFamily,
    ipv6: bool,
)
    ensures
        address_views(final(texts)@) == address_views(old(texts)@) + of_kind(
            found_views(found@),
            family,
            ipv6,
        ),
{
    let ghost views = found_views(found@);
    let wanted = is_wanted(family, ipv6);
    let mut i: usize = 0;
    assert(views.take(0) =~= Seq::empty());
    assert(address_views(texts@) =~= address_views(old(texts)@) + of_kind(
        views.take(0),
        family,
        ipv6,
    ));
    while i < found.len()
        invariant
            views == found_views(found@),
            wanted == admits(family, ipv6),
            i <= found@.len(),
            address_views(texts@) == address_views(old(texts)@) + of_kind(
                views.take(i as int),
                family,
                ipv6,
            ),
        decreases found@.len() - i,
    {
        let ghost before = texts@;
        assert(views.take(i + 1).drop_last() =~= views.take(i as int));
        if wanted && found[i].ipv6 == ipv6 {
            texts.push(copy_bytes(found[i].text.as_slice()));
            assert(address_views(texts@) =~= address_views(before).push(found@[i as int].text@));
            assert(address_views(texts@) =~= address_views(old(texts)@) + of_kind(
                views.take(i + 1),
                family,
                ipv6,
            ));
        }
        i += 1;
    }
    assert(views.take(i as int) =~= views);
}

/// Picks the addresses that a lookup is answered with.
pub fn select_addresses(found: &Vec<FoundAddress>, query: &LookupQuery) -> (result: Vec<Vec<u8>>)
    ensures
        address_views(result@) == selected(found_views(found@), query@),
{
    let first = match query.order {
        AddressOrder::Ipv6ThenIpv4 => true,
        AddressOrder::Ipv4ThenIpv6 => false,
    };
    let mut texts: Vec<Vec<u8>> = Vec::new();
    append_kind(&mut texts, found, query.family, first);
    append_kind(&mut texts, found, query.family, !first);
    let ghost all = address_views(texts@);
    assert(all =~= of_kind(found_views(found@), query.family, first) + of_kind(
        found_views(found@),
        query.family,
        !first,
    ));
    if texts.len() > query.max_results {
        texts.truncate(query.max_results);
        assert(address_views(texts@) =~= all.take(query.max_results as int));
    }
    texts
}

/// What is known of a name.
#[derive(Clone, Copy, Debug, PartialEq, Eq, Structural)]
pub enum ResolveStatus {
    Answer,
    NameNotFound,
    NoData,
}

/// The answer to a lookup.
#[derive(Debug)]
pub struct ResolveResponse {
    pub name: Vec<u8>,
    pub status: ResolveStatus,
    pub addresses: Vec<Vec<u8>>,
    pub valid_until: Option<u64>,
    pub from_cache: bool,
    pub candidate_name: Option<Vec<u8>>,
}

/// How a lookup ended.
#[derive(Debug)]
pub enum ResolveCompletion {
    Completed(ResolveResponse),
    Failed(Error),
}

/// What a [`ResolveCompletion`] says.
pub enum ResolutionView {
    Completed(ResolveResponse),
    Failed(ErrorView),
}

impl View for ResolveCompletion {
    type V = ResolutionView;

    open spec fn view(&self) -> ResolutionView {
        match self {
            ResolveCompletion::Completed(response) => ResolutionView::Completed(*response),
            ResolveCompletion::Failed(error) => ResolutionView::Failed(error@),
        }
    }
}

/// How a lookup ended, with its number.
#[derive(Debug)]
pub struct BackendResolveCompletion {
    pub id: u64,
    pub completion: ResolveCompletion,
}

impl View for BackendResolveCompletion {
    type V = (u64, ResolutionView);

    open spec fn view(&self) -> (u64, ResolutionView) {
        (self.id, self.completion@)
    }
}

/// A lookup that took too long.
pub fn public_total_timeout() -> (result: ResolveCompletion)
    ensures
        result@ == ResolutionView::Failed(public_lookup_expired()),
{
    ResolveCompletion::Failed(
        Error::timeout(TimeoutKind::Total, "the public resolution total timeout expired"),
    )
}

/// A lookup that is going on.
#[derive(Clone, Copy, Debug, PartialEq, Eq, Structural)]
pub struct PublicLookup {
    pub request_id: u64,
    pub total_deadline: Option<u64>,
}

impl View for PublicLookup {
    type V = PublicLookup;

    open spec fn view(&self) -> PublicLookup {
        *self
    }
}

/// What the resolver is asked to do.
#[derive(Debug)]
pub enum ResolverEffect {
    Locate { key: u64, query: LookupQuery },
    CancelLocate { key: u64 },
}

/// What a [`ResolverEffect`] says.
pub enum ResolverEffectView {
    Locate { key: u64, query: QueryView },
    CancelLocate { key: u64 },
}

impl View for ResolverEffect {
    type V = ResolverEffectView;

    open spec fn view(&self) -> ResolverEffectView {
        match self {
            ResolverEffect::Locate { key, query } => ResolverEffectView::Locate {
                key: *key,
                query: query@,
            },
            ResolverEffect::CancelLocate { key } => ResolverEffectView::CancelLocate { key: *key },
        }
    }
}

/// The lookups that are going on.
pub struct LookupEngine {
    pub has_resolver: bool,
    pub lookups: Table<PublicLookup>,
    pub next_resolve_key: u64,
    pub effects: Queue<ResolverEffect>,
    pub done: Queue<BackendResolveCompletion>,
}

/// What a [`LookupEngine`] holds.
pub struct LookupsView {
    pub has_resolver: bool,
    pub lookups: Seq<(u64, PublicLookup)>,
    pub next_resolve_key: u64,
    pub effects: Seq<ResolverEffectView>,
    pub done: Seq<(u64, ResolutionView)>,
}

impl View for LookupEngine {
    type V = LookupsView;

    open spec fn view(&self) -> LookupsView {
        LookupsView {
            has_resolver: self.has_resolver,
            lookups: self.lookups@,
            next_resolve_key: self.next_resolve_key,
            effects: self.effects@,
            done: self.done@,
        }
    }
}

/// Numbers are given out once.
pub open spec fn lookups_ok(engine: LookupsView) -> bool {
    &&& distinct(engine.lookups)
    &&& forall|i: int|
        0 <= i < engine.lookups.len() ==> (#[trigger] engine.lookups[i]).0
            < engine.next_resolve_key
}

/// An engine without lookups.
pub open spec fn fresh_lookups(has_resolver: bool) -> LookupsView {
    LookupsView {
        has_resolver,
        lookups: Seq::empty(),
        next_resolve_key: 1,
        effects: Seq::empty(),
        done: Seq::empty(),
    }
}

/// One more lookup ended.
pub open spec fn answered(engine: LookupsView, id: u64, resolution: ResolutionView) -> LookupsView {
    LookupsView { done: engine.done.push((id, resolution)), ..engine }
}

/// The resolver is asked to stop a lookup.
pub open spec fn recalled(engine: LookupsView, key: u64) -> LookupsView {
    LookupsView {
        effects: engine.effects.push(ResolverEffectView::CancelLocate { key }),
        ..engine
    }
}

/// A lookup is asked for. Where it cannot start, its end comes back at once.
pub open spec fn resolve_submitted(
    engine: LookupsView,
    id: u64,
    query: QueryView,
    total_timeout: Option<u64>,
    accepted_at: u64,
    now: u64,
) -> (LookupsView, Option<ResolutionView>) {
    let total_deadline = due(accepted_at, total_timeout);
    if !engine.has_resolver {
        (
            engine,
            Some(
                ResolutionView::Failed(
                    plain_error(
                        ErrorKind::Unsupported,
                        "public hostname resolution is not available on this Engine"@,
                    ),
                ),
            ),
        )
    } else if is_past(total_deadline, now) {
        (engine, Some(ResolutionView::Failed(public_lookup_expired())))
    } else if engine.next_resolve_key == u64::MAX {
        (engine, Some(ResolutionView::Failed(lookups_exhausted())))
    } else {
        let key = engine.next_resolve_key;
        (
            LookupsView {
                next_resolve_key: (key + 1) as u64,
                lookups: engine.lookups.push(
                    (key, PublicLookup { request_id: id, total_deadline }),
                ),
                effects: engine.effects.push(ResolverEffectView::Locate { key, query }),
                ..engine
            },
            None,
        )
    }
}

/// A lookup ended. One that ends too late counts as one that took too long.
pub open spec fn resolve_answered(
    engine: LookupsView,
    key: u64,
    resolution: ResolutionView,
    now: u64,
) -> LookupsView {
    if !holds(engine.lookups, key) {
        engine
    } else {
        let lookup = found(engine.lookups, key);
        let taken = LookupsView { lookups: without_id(engine.lookups, key), ..engine };
        if is_past(lookup.total_deadline, now) {
            answered(
                recalled(taken, key),
                lookup.request_id,
                ResolutionView::Failed(public_lookup_expired()),
            )
        } else {
            answered(taken, lookup.request_id, resolution)
        }
    }
}

/// Lookups, from a position on, that take too long end.
pub open spec fn resolves_expired(engine: LookupsView, now: u64, from: nat) -> LookupsView
    decreases engine.lookups.len() - from,
{
    if from >= engine.lookups.len() {
        engine
    } else {
        let (key, lookup) = engine.lookups[from as int];
        if is_past(lookup.total_deadline, now) {
            resolves_expired(
                answered(
                    recalled(
                        LookupsView { lookups: engine.lookups.remove(from as int), ..engine },
                        key,
                    ),
                    lookup.request_id,
                    ResolutionView::Failed(public_lookup_expired()),
                ),
                now,
                from,
            )
        } else {
            resolves_expired(engine, now, from + 1)
        }
    }
}

/// The numbers of lookups.
pub open spec fn lookup_numbers(lookups: Seq<(u64, PublicLookup)>) -> Seq<u64> {
    lookups.map_values(|entry: (u64, PublicLookup)| entry.1.request_id)
}

/// A lookup is given up.
pub open spec fn resolve_cancelled(engine: LookupsView, id: u64) -> LookupsView {
    let at = first_number(lookup_numbers(engine.lookups), id);
    if at < engine.lookups.len() {
        recalled(
            LookupsView { lookups: engine.lookups.remove(at), ..engine },
            engine.lookups[at].0,
        )
    } else {
        engine
    }
}

proof fn lemma_lookup_gone(engine: LookupsView, key: u64)
    requires
        lookups_ok(engine),
    ensures
        lookups_ok(LookupsView { lookups: without_id(engine.lookups, key), ..engine }),
{
    lemma_without_id(engine.lookups, key, key);
    lemma_position(engine.lookups, key);
    let left = without_id(engine.lookups, key);
    let at = crate::table::position(engine.lookups, key);
    assert forall|i: int| 0 <= i < left.len() implies (#[trigger] left[i]).0
        < engine.next_resolve_key by {
        if at < engine.lookups.len() && i >= at {
            assert(left[i] == engine.lookups[i + 1]);
        } else {
            assert(left[i] == engine.lookups[i]);
        }
    }
}

impl LookupEngine {
    pub open spec fn wf(&self) -> bool {
        lookups_ok(self@)
    }

    /// An engine without lookups.
    pub fn new(has_resolver: bool) -> (result: Self)
        ensures
            result.wf(),
            result@ == fresh_lookups(has_resolver),
    {
        LookupEngine {
            has_resolver,
            lookups: Table::new(),
            next_resolve_key: 1,
            effects: Queue::new(),
            done: Queue::new(),
        }
    }

    /// Takes the wish for a lookup.
    pub fn submit_resolve(
        &mut self,
        id: u64,
        query: LookupQuery,
        total_timeout: Option<u64>,
        accepted_at: u64,
        now: u64,
    ) -> (result: Option<ResolveCompletion>)
        requires
            old(self).wf(),
        ensures
            final(self).wf(),
            resolve_submitted(old(self)@, id, query@, total_timeout, accepted_at, now) == (
                final(self)@,
                match result {
                    Some(completion) => Some(completion@),
                    None => None,
                },
            ),
    {
        if !self.has_resolver {
            return Some(
                ResolveCompletion::Failed(
                    Error::new(
                        ErrorKind::Unsupported,
                        "public hostname resolution is not available on this Engine",
                    ),
                ),
            );
        }
        let total_deadline = deadline_after(accepted_at, total_timeout);
        if has_passed(total_deadline, now) {
            return Some(public_total_timeout());
        }
        if self.next_resolve_key == u64::MAX {
            return Some(
                ResolveCompletion::Failed(
                    Error::new(
                        ErrorKind::Internal,
                        "the native resolver request identity space is exhausted",
                    ),
                ),
            );
        }
        let key = self.next_resolve_key;
        let lookup = PublicLookup { request_id: id, total_deadline };
        proof {
            lemma_position(self@.lookups, key);
            lemma_added(self@.lookups, key, lookup, key);
        }
        self.next_resolve_key = key + 1;
        self.lookups.insert(key, lookup);
        self.effects.push(ResolverEffect::Locate { key, query });
        None
    }

    /// Takes the end of a lookup.
    pub fn finish_lookup(&mut self, key: u64, completion: ResolveCompletion, now: u64)
        requires
            old(self).wf(),
        ensures
            final(self).wf(),
            final(self)@ == resolve_answered(old(self)@, key, completion@, now),
    {
        proof {
            lemma_lookup_gone(self@, key);
        }
        if let Some(lookup) = self.lookups.remove(key) {
            let id = lookup.request_id;
            if has_passed(lookup.total_deadline, now) {
                self.effects.push(ResolverEffect::CancelLocate { key });
                self.done.push(
                    BackendResolveCompletion { id, completion: public_total_timeout() },
                );
            } else {
                self.done.push(BackendResolveCompletion { id, completion });
            }
        }
    }

    /// Ends the lookups that take too long.
    pub fn expire_public_lookups(&mut self, now: u64)
        requires
            old(self).wf(),
        ensures
            final(self).wf(),
            final(self)@ == resolves_expired(old(self)@, now, 0),
    {
        let mut index: usize = 0;
        while index < self.lookups.len()
            invariant
                self.wf(),
                index <= self@.lookups.len(),
                resolves_expired(old(self)@, now, 0) == resolves_expired(self@, now, index as nat),
            decreases self@.lookups.len() - index,
        {
            if has_passed(self.lookups.item_at(index).total_deadline, now) {
                let key = self.lookups.id_at(index);
                proof {
                    lemma_position_at(self@.lookups, index as int);
                    lemma_lookup_gone(self@, key);
                }
                if let Some(lookup) = self.lookups.remove(key) {
                    self.effects.push(ResolverEffect::CancelLocate { key });
                    self.done.push(
                        BackendResolveCompletion {
                            id: lookup.request_id,
                            completion: public_total_timeout(),
                        },
                    );
                }
            } else {
                index += 1;
            }
        }
    }

    /// Gives up a lookup.
    pub fn cancel(&mut self, id: u64)
        requires
            old(self).wf(),
        ensures
            final(self).wf(),
            final(self)@ == resolve_cancelled(old(self)@, id),
    {
        let mut at: usize = 0;
        let ghost numbers = lookup_numbers(self@.lookups);
        while at < self.lookups.len()
            invariant
                self.wf(),
                self@ == old(self)@,
                at <= self@.lookups.len(),
                numbers == lookup_numbers(self@.lookups),
                forall|i: int| 0 <= i < at ==> #[trigger] numbers[i] != id,
            decreases self@.lookups.len() - at,
        {
            if self.lookups.item_at(at).request_id == id {
                let key = self.lookups.id_at(at);
                proof {
                    lemma_first_number_is(numbers, id, at as int);
                    lemma_position_at(self@.lookups, at as int);
                    lemma_lookup_gone(self@, key);
                }
                self.lookups.remove(key);
                self.effects.push(ResolverEffect::CancelLocate { key });
                return;
            }
            at += 1;
        }
        proof {
            lemma_first_number_is(numbers, id, at as int);
        }
    }

    /// Takes how lookups ended.
    pub fn poll_resolves(&mut self, now: u64) -> (result: Queue<BackendResolveCompletion>)
        requires
            old(self).wf(),
        ensures
            final(self).wf(),
            result@ == resolves_expired(old(self)@, now, 0).done,
            final(self)@ == (LookupsView {
                done: Seq::empty(),
                ..resolves_expired(old(self)@, now, 0)
            }),
    {
        self.expire_public_lookups(now);
        let mut done = Queue::new();
        std::mem::swap(&mut done, &mut self.done);
        done
    }

    /// Takes what the resolver is to do.
    pub fn take_effects(&mut self) -> (result: Queue<ResolverEffect>)
        requires
            old(self).wf(),
        ensures
            final(self).wf(),
            result@ == old(self)@.effects,
            final(self)@ == (LookupsView { effects: Seq::empty(), ..old(self)@ }),
    {
        let mut effects = Queue::new();
        std::mem::swap(&mut effects, &mut self.effects);
        effects
    }

    /// Gives up everything. Numbers that were given out are not given out again.
    pub fn shutdown(&mut self)
        requires
            old(self).wf(),
        ensures
            final(self).wf(),
            final(self)@ == (LookupsView {
                lookups: Seq::empty(),
                effects: Seq::empty(),
                done: Seq::empty(),
                ..old(self)@
            }),
    {
        self.lookups.clear();
        self.effects.clear();
        self.done.clear();
    }

    /// Reports whether lookups are going on.
    pub fn wants_poll_without_requests(&self) -> (result: bool)
        ensures
            result == (self@.lookups.len() != 0),
    {
        self.lookups.len() != 0
    }
}

/// A lookup is answered once: when its end was taken, what comes later for it changes nothing.
pub proof fn lemma_lookups_are_answered_once(
    engine: LookupsView,
    key: u64,
    first: ResolutionView,
    second: ResolutionView,
    now: u64,
    later: u64,
)
    requires
        lookups_ok(engine),
    ensures
        resolve_answered(resolve_answered(engine, key, first, now), key, second, later)
            == resolve_answered(engine, key, first, now),
{
    lemma_without_id(engine.lookups, key, key);
}

} // verus!
