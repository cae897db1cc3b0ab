//! The geolocation cache.
//!
//! Resolving an address is slow and done elsewhere. This module decides what
//! has to be done: whether a request is answered from the cache, starts a
//! lookup, or waits for one that is already under way, and who is told when a
//! lookup completes. At most one lookup per address is under way at a time,
//! and everyone who asked while it ran gets its result.
use crate::types::{Location, NodeId};
use std::collections::HashMap;
use vstd::prelude::*;

verus! {

/// An address in normalized form: the four octets of an IPv4 address, the
/// first in the highest byte.
pub type Address = u32;

/// What the cache holds for an address.
#[derive(Debug)]
enum Entry {
    /// The address was resolved at time `at`. Kept for good.
    Found { location: Location, at: u64 },
    /// The last lookup failed. No new lookup is started before time `until`.
    Failed { until: u64 },
    /// A lookup is under way. `waiters` asked for its result, the one who
    /// started it first.
    Pending { waiters: Vec<NodeId> },
}

/// The mathematical value of a cache entry.
pub enum EntryView {
    Found { location: Location, at: u64 },
    Failed { until: u64 },
    Pending { waiters: Seq<NodeId> },
}

impl View for Entry {
    type V = EntryView;

    closed spec fn view(&self) -> EntryView {
        match *self {
            Entry::Found { location, at } => EntryView::Found { location, at },
            Entry::Failed { until } => EntryView::Failed { until },
            Entry::Pending { waiters } => EntryView::Pending { waiters: waiters@ },
        }
    }
}

/// The answer to a request.
#[derive(Clone, Copy, Debug, PartialEq, Eq)]
pub enum Lookup {
    /// The location is in the cache.
    Known(Location),
    /// A lookup failed a short while ago; there is no location for now.
    Unavailable,
    /// The caller must have the address resolved and report the outcome with
    /// [`Locator::complete`]. The requester is told then.
    Start,
    /// A lookup for the address is under way. The requester is told when it
    /// completes.
    Wait,
}

/// The outcome of a lookup, for one of those who asked.
#[derive(Clone, Copy, Debug, PartialEq, Eq)]
pub struct Delivery {
    pub node: NodeId,
    /// `None` when the lookup failed.
    pub location: Option<Location>,
}

/// The mathematical value of a [`Locator`].
pub struct LocatorView {
    pub entries: Map<Address, EntryView>,
    /// How long a failure is remembered.
    pub retry_after: u64,
}

/// `now + delay`, or the greatest time if that is beyond it.
pub open spec fn later(now: u64, delay: u64) -> u64 {
    if now + delay > u64::MAX {
        u64::MAX
    } else {
        (now + delay) as u64
    }
}

/// Whether a lookup for `address` is under way.
pub open spec fn is_pending(s: LocatorView, address: Address) -> bool {
    s.entries.contains_key(address) && s.entries[address] is Pending
}

/// Whether a request for `address` at time `now` has to start a lookup:
/// nothing is known of the address, or a failure that is no longer fresh.
pub open spec fn must_start(s: LocatorView, address: Address, now: u64) -> bool {
    !s.entries.contains_key(address) || (s.entries[address] matches EntryView::Failed { until }
        && now >= until)
}

/// What a request by `node` for `address` at time `now` leads to.
pub open spec fn request(s: LocatorView, address: Address, node: NodeId, now: u64) -> (
    LocatorView,
    Lookup,
) {
    if must_start(s, address, now) {
        (
            LocatorView {
                entries: s.entries.insert(address, EntryView::Pending { waiters: seq![node] }),
                ..s
            },
            Lookup::Start,
        )
    } else {
        match s.entries[address] {
            EntryView::Found { location, at } => (s, Lookup::Known(location)),
            EntryView::Failed { until } => (s, Lookup::Unavailable),
            EntryView::Pending { waiters } => (
                LocatorView {
                    entries: s.entries.insert(
                        address,
                        EntryView::Pending { waiters: waiters.push(node) },
                    ),
                    ..s
                },
                Lookup::Wait,
            ),
        }
    }
}

/// `outcome` for each of `waiters`, in their order.
pub open spec fn deliveries(waiters: Seq<NodeId>, outcome: Option<Location>) -> Seq<Delivery> {
    Seq::new(waiters.len(), |i: int| Delivery { node: waiters[i], location: outcome })
}

/// What the completion of the lookup for `address` at time `now` leads to.
/// A location is kept for good, a failure until `retry_after` has passed, and
/// everyone who waited is given the outcome. A completion for an address
/// without a lookup under way changes nothing.
pub open spec fn complete(
    s: LocatorView,
    address: Address,
    outcome: Option<Location>,
    now: u64,
) -> (LocatorView, Seq<Delivery>) {
    if is_pending(s, address) {
        (
            LocatorView {
                entries: s.entries.insert(
                    address,
                    match outcome {
                        Some(location) => EntryView::Found { location, at: now },
                        None => EntryView::Failed { until: later(now, s.retry_after) },
                    },
                ),
                ..s
            },
            deliveries(s.entries[address]->waiters, outcome),
        )
    } else {
        (s, Seq::empty())
    }
}

spec fn entry_views(m: Map<Address, Entry>) -> Map<Address, EntryView> {
    Map::new(|a: Address| m.contains_key(a), |a: Address| m[a]@)
}

/// The cache of resolved addresses and of lookups under way.
pub struct Locator {
    entries: HashMap<Address, Entry>,
    retry_after: u64,
}

impl View for Locator {
    type V = LocatorView;

    closed spec fn view(&self) -> LocatorView {
        LocatorView { entries: entry_views(self.entries@), retry_after: self.retry_after }
    }
}

impl Locator {
    /// An empty cache that remembers a failure for `retry_after` units of time.
    pub fn new(retry_after: u64) -> (l: Locator)
        ensures
            l@ == (LocatorView { entries: Map::empty(), retry_after }),
    {
        let l = Locator { entries: HashMap::new(), retry_after };
        assert(l@.entries =~= Map::empty());
        l
    }

    /// `node` asks for the location of `address` at time `now`.
    pub fn request(&mut self, address: Address, node: NodeId, now: u64) -> (r: Lookup)
        ensures
            final(self)@ == request(old(self)@, address, node, now).0,
            r == request(old(self)@, address, node, now).1,
    {
        match self.entries.remove(&address) {
            None => {
                let mut waiters: Vec<NodeId> = Vec::new();
                waiters.push(node);
                assert(waiters@ =~= seq![node]);
                self.entries.insert(address, Entry::Pending { waiters });
                assert(self@.entries =~= request(old(self)@, address, node, now).0.entries);
                Lookup::Start
            },
            Some(Entry::Found { location, at }) => {
                self.entries.insert(address, Entry::Found { location, at });
                assert(self@.entries =~= old(self)@.entries);
                Lookup::Known(location)
            },
            Some(Entry::Failed { until }) => {
                if now >= until {
                    let mut waiters: Vec<NodeId> = Vec::new();
                    waiters.push(node);
                    assert(waiters@ =~= seq![node]);
                    self.entries.insert(address, Entry::Pending { waiters });
                    assert(self@.entries =~= request(old(self)@, address, node, now).0.entries);
                    Lookup::Start
                } else {
                    self.entries.insert(address, Entry::Failed { until });
                    assert(self@.entries =~= old(self)@.entries);
                    Lookup::Unavailable
                }
            },
            Some(Entry::Pending { waiters }) => {
                let mut waiters = waiters;
                waiters.push(node);
                self.entries.insert(address, Entry::Pending { waiters });
                assert(self@.entries =~= request(old(self)@, address, node, now).0.entries);
                Lookup::Wait
            },
        }
    }

    /// The lookup for `address` ended at time `now` with `outcome`. Returns
    /// what to tell whom.
    pub fn complete(&mut self, address: Address, outcome: Option<Location>, now: u64) -> (out: Vec<
        Delivery,
    >)
        ensures
            final(self)@ == complete(old(self)@, address, outcome, now).0,
            out@ == complete(old(self)@, address, outcome, now).1,
    {
        let mut out: Vec<Delivery> = Vec::new();
        match self.entries.remove(&address) {
            None => {
                assert(self@.entries =~= old(self)@.entries);
            },
            Some(Entry::Pending { waiters }) => {
                let mut i: usize = 0;
                while i < waiters.len()
                    invariant
                        i <= waiters.len(),
                        out@ == deliveries(waiters@.take(i as int), outcome),
                    decreases waiters.len() - i,
                {
                    out.push(Delivery { node: waiters[i], location: outcome });
                    assert(out@ =~= deliveries(waiters@.take(i as int + 1), outcome));
                    i += 1;
                }
                assert(waiters@.take(waiters.len() as int) =~= waiters@);
                let entry = match outcome {
                    Some(location) => Entry::Found { location, at: now },
                    None => Entry::Failed { until: now.saturating_add(self.retry_after) },
                };
                self.entries.insert(address, entry);
                assert(self@.entries =~= complete(old(self)@, address, outcome, now).0.entries);
            },
            Some(other) => {
                self.entries.insert(address, other);
                assert(self@.entries =~= old(self)@.entries);
            },
        }
        out
    }

    /// The location of `address`, if it is in the cache.
    pub fn cached(&self, address: Address) -> (r: Option<Location>)
        ensures
            r == (if self@.entries.contains_key(address) && self@.entries[address] is Found {
                Some(self@.entries[address]->location)
            } else {
                None
            }),
    {
        match self.entries.get(&address) {
            Some(Entry::Found { location, at }) => Some(*location),
            _ => None,
        }
    }

    /// Whether a lookup for `address` is under way.
    pub fn in_flight(&self, address: Address) -> (r: bool)
        ensures
            r == is_pending(self@, address),
    {
        match self.entries.get(&address) {
            Some(Entry::Pending { waiters }) => true,
            _ => false,
        }
    }
}

/// One request, as it reaches the cache.
pub struct Request {
    pub address: Address,
    pub node: NodeId,
    pub now: u64,
}

/// The cache after it has answered `requests`, in order, starting from `s`.
pub open spec fn requested(s: LocatorView, requests: Seq<Request>) -> LocatorView
    decreases requests.len(),
{
    if requests.len() == 0 {
        s
    } else {
        let r = requests.last();
        request(requested(s, requests.drop_last()), r.address, r.node, r.now).0
    }
}

/// How many of `requests` were answered with [`Lookup::Start`] for `address`.
pub open spec fn lookups_started(s: LocatorView, requests: Seq<Request>, address: Address) -> nat
    decreases requests.len(),
{
    if requests.len() == 0 {
        0
    } else {
        let r = requests.last();
        let before = requested(s, requests.drop_last());
        let earlier = lookups_started(s, requests.drop_last(), address);
        if r.address == address && request(before, r.address, r.node, r.now).1 is Start {
            earlier + 1
        } else {
            earlier
        }
    }
}

/// The nodes that asked for `address` in `requests`, in order.
pub open spec fn callers(requests: Seq<Request>, address: Address) -> Seq<NodeId>
    decreases requests.len(),
{
    if requests.len() == 0 {
        Seq::empty()
    } else if requests.last().address == address {
        callers(requests.drop_last(), address).push(requests.last().node)
    } else {
        callers(requests.drop_last(), address)
    }
}

/// While a lookup for an address is under way, requests for it, however many
/// and from whomever, start no other: each is made to wait, and the lookup
/// stays under way for all who asked.
pub proof fn lemma_no_second_lookup(s: LocatorView, requests: Seq<Request>, address: Address)
    requires
        is_pending(s, address),
    ensures
        lookups_started(s, requests, address) == 0,
        is_pending(requested(s, requests), address),
        requested(s, requests).entries[address]->waiters == s.entries[address]->waiters + callers(
            requests,
            address,
        ),
    decreases requests.len(),
{
    if requests.len() > 0 {
        lemma_no_second_lookup(s, requests.drop_last(), address);
        let before = requested(s, requests.drop_last());
        let had = s.entries[address]->waiters;
        let earlier = callers(requests.drop_last(), address);
        if requests.last().address == address {
            assert((had + earlier).push(requests.last().node) =~= had + earlier.push(
                requests.last().node,
            ));
        }
    } else {
        let had = s.entries[address]->waiters;
        assert(had + Seq::<NodeId>::empty() =~= had);
    }
}

/// Requests that find nothing in the cache for an address start exactly one
/// lookup, however many they are, and when that lookup completes each caller
/// is told the same outcome, once, in the order of asking.
pub proof fn lemma_one_lookup_one_result(
    s: LocatorView,
    requests: Seq<Request>,
    address: Address,
    outcome: Option<Location>,
    now: u64,
)
    requires
        !s.entries.contains_key(address),
        callers(requests, address).len() > 0,
    ensures
        lookups_started(s, requests, address) == 1,
        is_pending(requested(s, requests), address),
        complete(requested(s, requests), address, outcome, now).1 == deliveries(
            callers(requests, address),
            outcome,
        ),
{
    lemma_cold_requests(s, requests, address);
}

/// What requests make of an address that the cache knew nothing of: nothing
/// while none asks for it, and one lookup with all callers waiting after that.
proof fn lemma_cold_requests(s: LocatorView, requests: Seq<Request>, address: Address)
    requires
        !s.entries.contains_key(address),
    ensures
        callers(requests, address).len() == 0 ==> !requested(s, requests).entries.contains_key(
            address,
        ) && lookups_started(s, requests, address) == 0,
        callers(requests, address).len() > 0 ==> lookups_started(s, requests, address) == 1
            && is_pending(requested(s, requests), address) && requested(
            s,
            requests,
        ).entries[address]->waiters == callers(requests, address),
    decreases requests.len(),
{
    if requests.len() > 0 {
        lemma_cold_requests(s, requests.drop_last(), address);
        let earlier = callers(requests.drop_last(), address);
        if requests.last().address == address && earlier.len() == 0 {
            assert(seq![requests.last().node] =~= earlier.push(requests.last().node));
        }
    }
}

/// A failure is remembered for as long as the cache was told to, and no
/// longer: after a lookup has failed at time `now`, a request before
/// `retry_after` has passed is told that there is no location, changes
/// nothing and starts nothing; the first request after that starts a lookup.
pub proof fn lemma_failure_is_remembered(
    s: LocatorView,
    address: Address,
    now: u64,
    node: NodeId,
    at: u64,
)
    requires
        is_pending(s, address),
    ensures
        ({
            let failed = complete(s, address, None, now).0;
            let again = request(failed, address, node, at);
            &&& at < later(now, s.retry_after) ==> again.1 == Lookup::Unavailable && again.0
                == failed
            &&& at >= later(now, s.retry_after) ==> again.1 == Lookup::Start && is_pending(
                again.0,
                address,
            )
        }),
{
}

/// A location is kept for good: once an address is resolved, every request
/// for it, at whatever time, is answered with its location from the cache,
/// and no lookup for it is started again.
pub proof fn lemma_location_is_kept(
    s: LocatorView,
    requests: Seq<Request>,
    address: Address,
    node: NodeId,
    at: u64,
)
    requires
        s.entries.contains_key(address),
        s.entries[address] is Found,
    ensures
        requested(s, requests).entries.contains_key(address),
        requested(s, requests).entries[address] == s.entries[address],
        lookups_started(s, requests, address) == 0,
        request(requested(s, requests), address, node, at).1 == Lookup::Known(
            s.entries[address]->location,
        ),
    decreases requests.len(),
{
    if requests.len() > 0 {
        let last = requests.last();
        lemma_location_is_kept(s, requests.drop_last(), address, last.node, last.now);
    }
}

} // verus!
