//! The aggregator: the single owner of every node, feed and chain record.
//!
//! It consumes one event at a time. Each method is proved to take the state
//! to exactly the state that [`crate::model`] gives for the event, and to
//! return exactly the messages the model sends.
use crate::consistency;
use crate::message::{entries_view, notify, outbox_view, send_to_all, FeedMessage, Outbound};
use crate::model;
use crate::model::{ChainView, State};
use crate::types::{
    Block, BlockKind, ChainKey, ChainStats, FeedId, FeedRecord, Location, NodeDetails, NodeEntry,
    NodeHardware, NodeId, NodeRecord, NodeRecordView, NodeStats, Report, Tip,
};
use std::collections::HashMap;
use vstd::prelude::*;

verus! {

/// One chain as the aggregator stores it.
struct ChainEntry {
    members: Vec<NodeId>,
    subscribers: Vec<FeedId>,
    best: Tip,
    finalized: Tip,
    synced: usize,
}

impl View for ChainEntry {
    type V = ChainView;

    closed spec fn view(&self) -> ChainView {
        ChainView {
            members: self.members@,
            subscribers: self.subscribers@,
            best: self.best,
            finalized: self.finalized,
            synced: self.synced,
        }
    }
}

impl ChainEntry {
    /// A chain without members or subscribers.
    fn empty() -> (e: ChainEntry)
        ensures
            e@ == model::empty_chain(),
    {
        ChainEntry {
            members: Vec::new(),
            subscribers: Vec::new(),
            best: Tip::zero(),
            finalized: Tip::zero(),
            synced: 0,
        }
    }

    /// What feeds are told about the chain as a whole.
    fn stats(&self) -> (s: ChainStats)
        ensures
            s@ == self@.stats(),
    {
        ChainStats {
            node_count: self.members.len(),
            synced: self.synced,
            best: self.best.block,
            finalized: self.finalized.block,
        }
    }

    /// The chain's head of the given kind.
    fn tip(&self, kind: BlockKind) -> (t: Tip)
        ensures
            t == self@.tip(kind),
    {
        match kind {
            BlockKind::Best => self.best,
            BlockKind::Finalized => self.finalized,
        }
    }

    /// Replaces the chain's head of the given kind.
    fn set_tip(&mut self, kind: BlockKind, tip: Tip)
        ensures
            final(self)@ == old(self)@.with_tip(kind, tip),
    {
        match kind {
            BlockKind::Best => {
                self.best = tip;
            },
            BlockKind::Finalized => {
                self.finalized = tip;
            },
        }
    }
}

/// The values of the stored node records.
spec fn records(m: Map<NodeId, NodeRecord>) -> Map<NodeId, NodeRecordView> {
    Map::new(|id: NodeId| m.contains_key(id), |id: NodeId| m[id]@)
}

/// The values of the stored chains.
spec fn chain_views(m: Map<ChainKey, ChainEntry>) -> Map<ChainKey, ChainView> {
    Map::new(|key: ChainKey| m.contains_key(key), |key: ChainKey| m[key]@)
}

/// The node's head of the given kind.
fn tip_of(record: &NodeRecord, kind: BlockKind) -> (t: Tip)
    ensures
        t == record@.tip(kind),
{
    match kind {
        BlockKind::Best => record.best,
        BlockKind::Finalized => record.finalized,
    }
}

/// `ids` without any occurrence of `id`.
fn remove_id(ids: &Vec<u64>, id: u64) -> (r: Vec<u64>)
    ensures
        r@ == model::without(ids@, id),
{
    let mut r: Vec<u64> = Vec::new();
    let mut i: usize = 0;
    proof {
        model::lemma_without_push(Seq::empty(), id, id);
        assert(ids@.take(0) =~= Seq::<u64>::empty());
    }
    while i < ids.len()
        invariant
            i <= ids.len(),
            r@ == model::without(ids@.take(i as int), id),
        decreases ids.len() - i,
    {
        proof {
            assert(ids@.take(i as int + 1) =~= ids@.take(i as int).push(ids[i as int]));
            model::lemma_without_push(ids@.take(i as int), ids[i as int], id);
        }
        if ids[i] != id {
            r.push(ids[i]);
        }
        i += 1;
    }
    assert(ids@.take(ids.len() as int) =~= ids@);
    r
}

/// The greatest head of the given kind among `members`.
fn highest(nodes: &HashMap<NodeId, NodeRecord>, members: &Vec<NodeId>, kind: BlockKind) -> (t: Tip)
    ensures
        t == model::max_tip(records(nodes@), members@, kind),
{
    let mut t = Tip::zero();
    let mut i: usize = 0;
    proof {
        assert(members@.take(0) =~= Seq::<u64>::empty());
    }
    while i < members.len()
        invariant
            i <= members.len(),
            t == model::max_tip(records(nodes@), members@.take(i as int), kind),
        decreases members.len() - i,
    {
        proof {
            assert(members@.take(i as int + 1).drop_last() =~= members@.take(i as int));
        }
        match nodes.get(&members[i]) {
            Some(record) => {
                let candidate = tip_of(record, kind);
                if t.le(&candidate) {
                    t = candidate;
                }
            },
            None => {},
        }
        i += 1;
    }
    assert(members@.take(members.len() as int) =~= members@);
    t
}

/// How many of `members` report a best block of the given height.
fn count_at(nodes: &HashMap<NodeId, NodeRecord>, members: &Vec<NodeId>, height: u64) -> (n: usize)
    ensures
        n == model::count_at(records(nodes@), members@, height),
{
    let mut n: usize = 0;
    let mut i: usize = 0;
    proof {
        assert(members@.take(0) =~= Seq::<u64>::empty());
    }
    while i < members.len()
        invariant
            i <= members.len(),
            n <= i,
            n == model::count_at(records(nodes@), members@.take(i as int), height),
        decreases members.len() - i,
    {
        proof {
            assert(members@.take(i as int + 1).drop_last() =~= members@.take(i as int));
        }
        match nodes.get(&members[i]) {
            Some(record) => {
                if record.best.block.height == height {
                    n += 1;
                }
            },
            None => {},
        }
        i += 1;
    }
    assert(members@.take(members.len() as int) =~= members@);
    n
}

/// The count of the members at the chain's best height after one member's
/// best block changed.
fn recount(synced: usize, before: u64, after: u64, was: Option<u64>, is: u64) -> (n: usize)
    ensures
        n == model::recount(synced, before, after, was, is),
{
    let was_there = match was {
        Some(height) => height == before,
        None => false,
    };
    if after != before {
        1
    } else if was_there && is != before {
        if synced > 0 {
            synced - 1
        } else {
            0
        }
    } else if !was_there && is == before {
        if synced < usize::MAX {
            synced + 1
        } else {
            synced
        }
    } else {
        synced
    }
}

/// The records of `members`, in their order.
fn roster(nodes: &HashMap<NodeId, NodeRecord>, members: &Vec<NodeId>) -> (r: Vec<NodeEntry>)
    ensures
        entries_view(r@) == model::roster(records(nodes@), members@),
{
    let mut r: Vec<NodeEntry> = Vec::new();
    let mut i: usize = 0;
    proof {
        assert(members@.take(0) =~= Seq::<u64>::empty());
        assert(entries_view(r@) =~= Seq::empty());
    }
    while i < members.len()
        invariant
            i <= members.len(),
            entries_view(r@) == model::roster(records(nodes@), members@.take(i as int)),
        decreases members.len() - i,
    {
        proof {
            assert(members@.take(i as int + 1).drop_last() =~= members@.take(i as int));
        }
        match nodes.get(&members[i]) {
            Some(record) => {
                let ghost before = entries_view(r@);
                let entry = NodeEntry { id: members[i], record: record.duplicate() };
                r.push(entry);
                assert(entries_view(r@) =~= before.push(entry@));
            },
            None => {},
        }
        i += 1;
    }
    assert(members@.take(members.len() as int) =~= members@);
    r
}

/// Clears the subscription of each of `subscribers`.
fn release(feeds: &mut HashMap<FeedId, FeedRecord>, subscribers: &Vec<FeedId>)
    ensures
        final(feeds)@ == model::release(old(feeds)@, subscribers@),
{
    let ghost start = feeds@;
    let mut i: usize = 0;
    proof {
        assert(subscribers@.take(0) =~= Seq::<u64>::empty());
        assert(feeds@ =~= model::release(start, subscribers@.take(0)));
    }
    while i < subscribers.len()
        invariant
            i <= subscribers.len(),
            feeds@ == model::release(start, subscribers@.take(i as int)),
        decreases subscribers.len() - i,
    {
        let f = subscribers[i];
        let ghost shorter = subscribers@.take(i as int);
        let ghost longer = subscribers@.take(i as int + 1);
        proof {
            assert(longer =~= shorter.push(f));
            assert(longer.contains(f)) by {
                assert(longer[i as int] == f);
            }
            assert forall|x: u64| longer.contains(x) <==> (shorter.contains(x) || x == f) by {
                if shorter.contains(x) {
                    let j = choose|j: int| 0 <= j < shorter.len() && shorter[j] == x;
                    assert(longer[j] == x);
                }
                if longer.contains(x) && x != f {
                    let j = choose|j: int| 0 <= j < longer.len() && longer[j] == x;
                    assert(shorter[j] == x);
                }
            }
        }
        if feeds.contains_key(&f) {
            feeds.insert(f, FeedRecord { subscription: None });
        }
        assert(feeds@ =~= model::release(start, longer));
        i += 1;
    }
    assert(subscribers@.take(subscribers.len() as int) =~= subscribers@);
}

/// Tells `feeds` of a change to their chain and, where the statistics are no
/// longer what they were, of the new statistics.
fn announce(
    out: &mut Vec<Outbound>,
    feeds: &Vec<FeedId>,
    change: &FeedMessage,
    before: &ChainStats,
    after: &ChainStats,
)
    ensures
        outbox_view(final(out)@) == outbox_view(old(out)@) + notify(
            feeds@,
            change@,
            before@,
            after@,
        ),
{
    let ghost start = outbox_view(out@);
    send_to_all(out, feeds, change);
    if !before.same(after) {
        let update = FeedMessage::ChainUpdated { stats: *after };
        send_to_all(out, feeds, &update);
        assert(outbox_view(out@) =~= start + notify(feeds@, change@, before@, after@));
    }
}

/// The owner of all node, feed and chain state.
pub struct Aggregator {
    nodes: HashMap<NodeId, NodeRecord>,
    feeds: HashMap<FeedId, FeedRecord>,
    chains: HashMap<ChainKey, ChainEntry>,
    next_node: u64,
    next_feed: u64,
    clock: u64,
}

impl View for Aggregator {
    type V = State;

    closed spec fn view(&self) -> State {
        State {
            nodes: records(self.nodes@),
            feeds: self.feeds@,
            chains: chain_views(self.chains@),
            next_node: self.next_node,
            next_feed: self.next_feed,
            clock: self.clock,
        }
    }
}

impl Aggregator {
    /// Whether the state is one that the relay keeps to: see
    /// [`consistency::inv`]. A new aggregator is, and every method keeps it so.
    pub open spec fn wf(&self) -> bool {
        consistency::inv(self@)
    }

    /// An aggregator to which nothing has connected yet.
    pub fn new() -> (a: Aggregator)
        ensures
            a@ == model::init(),
            a.wf(),
    {
        proof {
            consistency::lemma_init_inv();
        }
        let a = Aggregator {
            nodes: HashMap::new(),
            feeds: HashMap::new(),
            chains: HashMap::new(),
            next_node: 0,
            next_feed: 0,
            clock: 0,
        };
        assert(a@.nodes =~= Map::empty());
        assert(a@.chains =~= Map::empty());
        a
    }

    /// A node connects at time `now` and is given its id, or `None` when the
    /// ids are used up.
    pub fn node_connected(&mut self, now: u64) -> (id: Option<NodeId>)
        ensures
            old(self).wf() ==> final(self).wf(),
            final(self)@ == model::node_connected(old(self)@, now).0,
            id == model::node_connected(old(self)@, now).1,
    {
        proof {
            if old(self).wf() {
                consistency::lemma_node_connected_inv(old(self)@, now);
            }
        }
        if self.next_node == u64::MAX {
            return None;
        }
        let id = self.next_node;
        self.nodes.insert(id, NodeRecord::fresh(now));
        self.next_node = id + 1;
        assert(self@.nodes =~= model::node_connected(old(self)@, now).0.nodes);
        Some(id)
    }

    /// A feed connects and is given its id, or `None` when the ids are used up.
    pub fn feed_connected(&mut self) -> (id: Option<FeedId>)
        ensures
            old(self).wf() ==> final(self).wf(),
            final(self)@ == model::feed_connected(old(self)@).0,
            id == model::feed_connected(old(self)@).1,
    {
        proof {
            if old(self).wf() {
                consistency::lemma_feed_connected_inv(old(self)@);
            }
        }
        if self.next_feed == u64::MAX {
            return None;
        }
        let id = self.next_feed;
        self.feeds.insert(id, FeedRecord { subscription: None });
        self.next_feed = id + 1;
        Some(id)
    }

    /// The chain that node `id` reports to, if the node is known and has
    /// joined one.
    fn reporting_chain(&self, id: NodeId) -> (key: Option<ChainKey>)
        ensures
            key == model::reporting_chain(self@, id),
            key is Some ==> self.nodes@.contains_key(id) && self.chains@.contains_key(key.unwrap()),
    {
        match self.nodes.get(&id) {
            None => None,
            Some(record) => match record.chain {
                None => None,
                Some(key) => if self.chains.contains_key(&key) {
                    Some(key)
                } else {
                    None
                },
            },
        }
    }

    /// Node `id` names its chain and joins it.
    fn handshake(
        &mut self,
        id: NodeId,
        chain: ChainKey,
        details: NodeDetails,
        now: u64,
        out: &mut Vec<Outbound>,
    )
        ensures
            final(self)@ == model::handshake(old(self)@, id, chain, details@, now).state,
            outbox_view(final(out)@) == outbox_view(old(out)@) + model::handshake(
                old(self)@,
                id,
                chain,
                details@,
                now,
            ).outbox,
    {
        let known = match self.nodes.get(&id) {
            None => false,
            Some(record) => record.chain.is_none(),
        };
        let room = match self.chains.get(&chain) {
            None => true,
            Some(entry) => entry.members.len() < usize::MAX,
        };
        if !known || !room {
            assert(outbox_view(out@) =~= outbox_view(out@) + Seq::empty());
            return ;
        }
        let mut record = self.nodes.remove(&id).unwrap();
        record.chain = Some(chain);
        record.details = details;
        record.last_seen = now;
        let mut entry = match self.chains.remove(&chain) {
            Some(entry) => entry,
            None => ChainEntry::empty(),
        };
        let before = entry.stats();
        let ghost followers = entry.subscribers@;
        entry.members.push(id);
        let height = entry.best.block.height;
        if entry.best.le(&record.best) {
            entry.best = record.best;
        }
        entry.synced = recount(
            entry.synced,
            height,
            entry.best.block.height,
            None,
            record.best.block.height,
        );
        if entry.finalized.le(&record.finalized) {
            entry.finalized = record.finalized;
        }
        let after = entry.stats();
        let added = FeedMessage::NodeAdded { node: NodeEntry { id, record: record.duplicate() } };
        announce(out, &entry.subscribers, &added, &before, &after);
        self.chains.insert(chain, entry);
        self.nodes.insert(id, record);
        proof {
            let expected = model::handshake(old(self)@, id, chain, details@, now).state;
            assert(self@.nodes =~= expected.nodes);
            assert(self@.chains =~= expected.chains);
        }
    }

    /// Node `id` reports a new best or finalized block.
    fn block_update(
        &mut self,
        id: NodeId,
        kind: BlockKind,
        block: Block,
        now: u64,
        out: &mut Vec<Outbound>,
    )
        ensures
            final(self)@ == model::block_update(old(self)@, id, kind, block, now).state,
            outbox_view(final(out)@) == outbox_view(old(out)@) + model::block_update(
                old(self)@,
                id,
                kind,
                block,
                now,
            ).outbox,
    {
        let key = match self.reporting_chain(id) {
            Some(key) => key,
            None => {
                assert(outbox_view(out@) =~= outbox_view(out@) + Seq::empty());
                return ;
            },
        };
        if self.clock == u64::MAX {
            assert(outbox_view(out@) =~= outbox_view(out@) + Seq::empty());
            return ;
        }
        let mut record = self.nodes.remove(&id).unwrap();
        let mut entry = self.chains.remove(&key).unwrap();
        let before = entry.stats();
        let tip = Tip { block, stamp: self.clock + 1 };
        let held = tip_of(&record, kind);
        record.last_seen = now;
        match kind {
            BlockKind::Best => {
                record.best = tip;
            },
            BlockKind::Finalized => {
                record.finalized = tip;
            },
        }
        let copy = record.duplicate();
        self.nodes.insert(id, record);
        proof {
            assert(records(self.nodes@) =~= model::block_update(
                old(self)@,
                id,
                kind,
                block,
                now,
            ).state.nodes);
        }
        let current = entry.tip(kind);
        let sought = !current.le(&tip) && held.stamp == current.stamp;
        let head = if current.le(&tip) {
            tip
        } else if sought {
            highest(&self.nodes, &entry.members, kind)
        } else {
            current
        };
        let synced = match kind {
            BlockKind::Finalized => entry.synced,
            BlockKind::Best => if sought {
                count_at(&self.nodes, &entry.members, head.block.height)
            } else {
                recount(
                    entry.synced,
                    entry.best.block.height,
                    head.block.height,
                    Some(held.block.height),
                    block.height,
                )
            },
        };
        entry.set_tip(kind, head);
        entry.synced = synced;
        let after = entry.stats();
        let updated = FeedMessage::NodeUpdated { node: NodeEntry { id, record: copy } };
        announce(out, &entry.subscribers, &updated, &before, &after);
        self.chains.insert(key, entry);
        self.clock = tip.stamp;
        proof {
            let expected = model::block_update(old(self)@, id, kind, block, now).state;
            assert(self@.chains =~= expected.chains);
        }
    }

    /// Replaces the record of node `id`, which reports to chain `key`, and
    /// tells the chain's followers.
    fn node_changed(
        &mut self,
        id: NodeId,
        key: ChainKey,
        record: NodeRecord,
        out: &mut Vec<Outbound>,
    )
        requires
            old(self).chains@.contains_key(key),
        ensures
            final(self)@ == model::node_changed(old(self)@, id, key, record@).state,
            outbox_view(final(out)@) == outbox_view(old(out)@) + model::node_changed(
                old(self)@,
                id,
                key,
                record@,
            ).outbox,
    {
        let updated = FeedMessage::NodeUpdated {
            node: NodeEntry { id, record: record.duplicate() },
        };
        match self.chains.get(&key) {
            Some(entry) => {
                send_to_all(out, &entry.subscribers, &updated);
            },
            None => {},
        }
        self.nodes.insert(id, record);
        proof {
            let expected = model::node_changed(old(self)@, id, key, record@).state;
            assert(self@.nodes =~= expected.nodes);
        }
    }

    /// Node `id` reports its counters.
    fn stats_update(&mut self, id: NodeId, stats: NodeStats, now: u64, out: &mut Vec<Outbound>)
        ensures
            final(self)@ == model::stats_update(old(self)@, id, stats, now).state,
            outbox_view(final(out)@) == outbox_view(old(out)@) + model::stats_update(
                old(self)@,
                id,
                stats,
                now,
            ).outbox,
    {
        match self.reporting_chain(id) {
            None => {
                assert(outbox_view(out@) =~= outbox_view(out@) + Seq::empty());
            },
            Some(key) => {
                let mut record = self.nodes.get(&id).unwrap().duplicate();
                record.stats = stats;
                record.last_seen = now;
                self.node_changed(id, key, record, out);
            },
        }
    }

    /// Node `id` reports on its machine.
    fn hardware_update(
        &mut self,
        id: NodeId,
        hardware: NodeHardware,
        now: u64,
        out: &mut Vec<Outbound>,
    )
        ensures
            final(self)@ == model::hardware_update(old(self)@, id, hardware, now).state,
            outbox_view(final(out)@) == outbox_view(old(out)@) + model::hardware_update(
                old(self)@,
                id,
                hardware,
                now,
            ).outbox,
    {
        match self.reporting_chain(id) {
            None => {
                assert(outbox_view(out@) =~= outbox_view(out@) + Seq::empty());
            },
            Some(key) => {
                let mut record = self.nodes.get(&id).unwrap().duplicate();
                record.hardware = hardware;
                record.last_seen = now;
                self.node_changed(id, key, record, out);
            },
        }
    }

    /// Consumes a report from node `id` that arrived at time `now`, and
    /// returns the messages to send.
    pub fn node_report(&mut self, id: NodeId, report: Report, now: u64) -> (out: Vec<Outbound>)
        ensures
            old(self).wf() ==> final(self).wf(),
            final(self)@ == model::node_report(old(self)@, id, report@, now).state,
            outbox_view(out@) == model::node_report(old(self)@, id, report@, now).outbox,
    {
        proof {
            if old(self).wf() {
                consistency::lemma_node_report_inv(old(self)@, id, report@, now);
            }
        }
        let mut out: Vec<Outbound> = Vec::new();
        assert(outbox_view(out@) =~= Seq::empty());
        match report {
            Report::Handshake { chain, details } => {
                self.handshake(id, chain, details, now, &mut out);
            },
            Report::BlockUpdate { kind, block } => {
                self.block_update(id, kind, block, now, &mut out);
            },
            Report::StatsUpdate { stats } => {
                self.stats_update(id, stats, now, &mut out);
            },
            Report::HardwareUpdate { hardware } => {
                self.hardware_update(id, hardware, now, &mut out);
            },
            Report::Malformed => {},
        }
        assert(outbox_view(out@) =~= model::node_report(old(self)@, id, report@, now).outbox);
        out
    }

    /// Attaches a location to node `id`, and returns the messages to send.
    pub fn node_located(&mut self, id: NodeId, location: Location) -> (out: Vec<Outbound>)
        ensures
            old(self).wf() ==> final(self).wf(),
            final(self)@ == model::node_located(old(self)@, id, location).state,
            outbox_view(out@) == model::node_located(old(self)@, id, location).outbox,
    {
        proof {
            if old(self).wf() {
                consistency::lemma_node_located_inv(old(self)@, id, location);
            }
        }
        let mut out: Vec<Outbound> = Vec::new();
        assert(outbox_view(out@) =~= Seq::empty());
        let mut record = match self.nodes.get(&id) {
            None => {
                return out;
            },
            Some(record) => record.duplicate(),
        };
        record.location = Some(location);
        match self.reporting_chain(id) {
            None => {
                self.nodes.insert(id, record);
                assert(self@.nodes =~= model::node_located(old(self)@, id, location).state.nodes);
            },
            Some(key) => {
                self.node_changed(id, key, record, &mut out);
            },
        }
        assert(outbox_view(out@) =~= model::node_located(old(self)@, id, location).outbox);
        out
    }

    /// Node `id` disconnects. Returns the messages to send.
    pub fn node_disconnected(&mut self, id: NodeId) -> (out: Vec<Outbound>)
        ensures
            old(self).wf() ==> final(self).wf(),
            final(self)@ == model::node_disconnected(old(self)@, id).state,
            outbox_view(out@) == model::node_disconnected(old(self)@, id).outbox,
    {
        proof {
            if old(self).wf() {
                consistency::lemma_node_disconnected_inv(old(self)@, id);
            }
        }
        let mut out: Vec<Outbound> = Vec::new();
        assert(outbox_view(out@) =~= Seq::empty());
        if !self.nodes.contains_key(&id) {
            return out;
        }
        let chain = self.reporting_chain(id);
        self.nodes.remove(&id);
        assert(records(self.nodes@) =~= old(self)@.nodes.remove(id));
        let key = match chain {
            None => {
                return out;
            },
            Some(key) => key,
        };
        let mut entry = self.chains.remove(&key).unwrap();
        let before = entry.stats();
        let members = remove_id(&entry.members, id);
        if members.len() == 0 {
            release(&mut self.feeds, &entry.subscribers);
            let gone = FeedMessage::ChainRemoved { chain: key };
            send_to_all(&mut out, &entry.subscribers, &gone);
            proof {
                let expected = model::node_disconnected(old(self)@, id);
                assert(self@.chains =~= expected.state.chains);
                assert(outbox_view(out@) =~= expected.outbox);
            }
        } else {
            entry.best = highest(&self.nodes, &members, BlockKind::Best);
            entry.finalized = highest(&self.nodes, &members, BlockKind::Finalized);
            entry.synced = count_at(&self.nodes, &members, entry.best.block.height);
            entry.members = members;
            let after = entry.stats();
            let removed = FeedMessage::NodeRemoved { id };
            announce(&mut out, &entry.subscribers, &removed, &before, &after);
            self.chains.insert(key, entry);
            proof {
                let expected = model::node_disconnected(old(self)@, id);
                assert(self@.chains =~= expected.state.chains);
                assert(outbox_view(out@) =~= expected.outbox);
            }
        }
        out
    }

    /// Feed `feed`, which is connected, gives up its subscription.
    fn leave(&mut self, feed: FeedId, out: &mut Vec<Outbound>)
        requires
            old(self).feeds@.contains_key(feed),
        ensures
            final(self)@ == model::leave(old(self)@, feed).state,
            outbox_view(final(out)@) == outbox_view(old(out)@) + model::leave(
                old(self)@,
                feed,
            ).outbox,
            final(self).feeds@.contains_key(feed),
    {
        let key = match self.feeds.get(&feed).unwrap().subscription {
            None => {
                assert(outbox_view(out@) =~= outbox_view(out@) + Seq::empty());
                return ;
            },
            Some(key) => key,
        };
        self.feeds.insert(feed, FeedRecord { subscription: None });
        match self.chains.remove(&key) {
            None => {},
            Some(entry) => {
                let mut entry = entry;
                entry.subscribers = remove_id(&entry.subscribers, feed);
                self.chains.insert(key, entry);
            },
        }
        let ghost start = outbox_view(out@);
        let notice = Outbound { feed, message: FeedMessage::ChainRemoved { chain: key } };
        out.push(notice);
        proof {
            let expected = model::leave(old(self)@, feed);
            assert(self@.chains =~= expected.state.chains);
            assert(outbox_view(out@) =~= start + expected.outbox);
        }
    }

    /// Feed `feed` subscribes to `chain`. Returns the messages to send.
    pub fn feed_subscribe(&mut self, feed: FeedId, chain: ChainKey) -> (out: Vec<Outbound>)
        ensures
            old(self).wf() ==> final(self).wf(),
            final(self)@ == model::feed_subscribe(old(self)@, feed, chain).state,
            outbox_view(out@) == model::feed_subscribe(old(self)@, feed, chain).outbox,
    {
        proof {
            if old(self).wf() {
                consistency::lemma_feed_subscribe_inv(old(self)@, feed, chain);
            }
        }
        let mut out: Vec<Outbound> = Vec::new();
        assert(outbox_view(out@) =~= Seq::empty());
        if !self.feeds.contains_key(&feed) {
            return out;
        }
        self.leave(feed, &mut out);
        let ghost left = outbox_view(out@);
        assert(left =~= model::leave(old(self)@, feed).outbox);
        let message = match self.chains.remove(&chain) {
            Some(entry) => {
                let mut entry = entry;
                let stats = entry.stats();
                let nodes = roster(&self.nodes, &entry.members);
                entry.subscribers.push(feed);
                self.chains.insert(chain, entry);
                self.feeds.insert(feed, FeedRecord { subscription: Some(chain) });
                FeedMessage::Snapshot { chain, stats, nodes }
            },
            None => FeedMessage::ChainNotFound { chain },
        };
        let last = Outbound { feed, message };
        out.push(last);
        proof {
            let expected = model::feed_subscribe(old(self)@, feed, chain);
            assert(self@.chains =~= expected.state.chains);
            assert(outbox_view(out@) =~= left.push(last@));
        }
        out
    }

    /// Feed `feed` gives up its subscription. Returns the messages to send.
    pub fn feed_unsubscribe(&mut self, feed: FeedId) -> (out: Vec<Outbound>)
        ensures
            old(self).wf() ==> final(self).wf(),
            final(self)@ == model::feed_unsubscribe(old(self)@, feed).state,
            outbox_view(out@) == model::feed_unsubscribe(old(self)@, feed).outbox,
    {
        proof {
            if old(self).wf() {
                consistency::lemma_feed_unsubscribe_inv(old(self)@, feed);
            }
        }
        let mut out: Vec<Outbound> = Vec::new();
        assert(outbox_view(out@) =~= Seq::empty());
        if self.feeds.contains_key(&feed) {
            self.leave(feed, &mut out);
            assert(outbox_view(out@) =~= model::leave(old(self)@, feed).outbox);
        }
        out
    }

    /// Feed `feed` disconnects.
    pub fn feed_disconnected(&mut self, feed: FeedId)
        ensures
            old(self).wf() ==> final(self).wf(),
            final(self)@ == model::feed_disconnected(old(self)@, feed).state,
    {
        proof {
            if old(self).wf() {
                consistency::lemma_feed_disconnected_inv(old(self)@, feed);
            }
        }
        if self.feeds.contains_key(&feed) {
            let mut unsent: Vec<Outbound> = Vec::new();
            self.leave(feed, &mut unsent);
            self.feeds.remove(&feed);
        }
    }

    /// Consumes one event of any kind. This is the relay's single entry point
    /// for a loop that takes events off a queue.
    pub fn handle(&mut self, event: Event) -> (r: Reaction)
        ensures
            old(self).wf() ==> final(self).wf(),
            final(self)@ == model::react(old(self)@, event@).state,
            r.assigned == model::react(old(self)@, event@).assigned,
            outbox_view(r.outbox@) == model::react(old(self)@, event@).outbox,
    {
        proof {
            if old(self).wf() {
                consistency::lemma_react_inv(old(self)@, event@);
            }
        }
        match event {
            Event::NodeConnected { now } => {
                let assigned = self.node_connected(now);
                let outbox: Vec<Outbound> = Vec::new();
                assert(outbox_view(outbox@) =~= Seq::empty());
                Reaction { assigned, outbox }
            },
            Event::NodeReport { node, report, now } => Reaction {
                assigned: None,
                outbox: self.node_report(node, report, now),
            },
            Event::NodeLocated { node, location } => Reaction {
                assigned: None,
                outbox: self.node_located(node, location),
            },
            Event::NodeDisconnected { node } => Reaction {
                assigned: None,
                outbox: self.node_disconnected(node),
            },
            Event::FeedConnected => {
                let assigned = self.feed_connected();
                let outbox: Vec<Outbound> = Vec::new();
                assert(outbox_view(outbox@) =~= Seq::empty());
                Reaction { assigned, outbox }
            },
            Event::FeedSubscribe { feed, chain } => Reaction {
                assigned: None,
                outbox: self.feed_subscribe(feed, chain),
            },
            Event::FeedUnsubscribe { feed } => Reaction {
                assigned: None,
                outbox: self.feed_unsubscribe(feed),
            },
            Event::FeedDisconnected { feed } => {
                self.feed_disconnected(feed);
                let outbox: Vec<Outbound> = Vec::new();
                assert(outbox_view(outbox@) =~= Seq::empty());
                Reaction { assigned: None, outbox }
            },
        }
    }

    /// The record of node `id`, if it is connected.
    pub fn node(&self, id: NodeId) -> (r: Option<NodeRecord>)
        ensures
            match r {
                Some(record) => self@.nodes.contains_key(id) && record@ == self@.nodes[id],
                None => !self@.nodes.contains_key(id),
            },
    {
        match self.nodes.get(&id) {
            Some(record) => Some(record.duplicate()),
            None => None,
        }
    }

    /// The record of feed `id`, if it is connected.
    pub fn feed(&self, id: FeedId) -> (r: Option<FeedRecord>)
        ensures
            r == (if self@.feeds.contains_key(id) {
                Some(self@.feeds[id])
            } else {
                None
            }),
    {
        match self.feeds.get(&id) {
            Some(record) => Some(*record),
            None => None,
        }
    }

    /// The statistics of chain `key`, if the chain exists.
    pub fn chain_stats(&self, key: ChainKey) -> (r: Option<ChainStats>)
        ensures
            match r {
                Some(stats) => self@.chains.contains_key(key) && stats@
                    == self@.chains[key].stats(),
                None => !self@.chains.contains_key(key),
            },
    {
        match self.chains.get(&key) {
            Some(entry) => Some(entry.stats()),
            None => None,
        }
    }

    /// The members of chain `key` in the order they joined, if the chain exists.
    pub fn members(&self, key: ChainKey) -> (r: Option<Vec<NodeId>>)
        ensures
            match r {
                Some(ids) => self@.chains.contains_key(key) && ids@
                    == self@.chains[key].members,
                None => !self@.chains.contains_key(key),
            },
    {
        match self.chains.get(&key) {
            Some(entry) => {
                let ids = entry.members.clone();
                assert(ids@ =~= entry.members@);
                Some(ids)
            },
            None => None,
        }
    }

    /// The subscribers of chain `key` in the order they subscribed, if the
    /// chain exists.
    pub fn subscribers(&self, key: ChainKey) -> (r: Option<Vec<FeedId>>)
        ensures
            match r {
                Some(ids) => self@.chains.contains_key(key) && ids@
                    == self@.chains[key].subscribers,
                None => !self@.chains.contains_key(key),
            },
    {
        match self.chains.get(&key) {
            Some(entry) => {
                let ids = entry.subscribers.clone();
                assert(ids@ =~= entry.subscribers@);
                Some(ids)
            },
            None => None,
        }
    }

    /// How many chains exist.
    pub fn chain_count(&self) -> (n: usize)
        ensures
            n == self@.chains.len(),
    {
        assert(self@.chains.dom() =~= self.chains@.dom());
        self.chains.len()
    }

    /// How many nodes are connected.
    pub fn node_count(&self) -> (n: usize)
        ensures
            n == self@.nodes.len(),
    {
        assert(self@.nodes.dom() =~= self.nodes@.dom());
        self.nodes.len()
    }

    /// How many feeds are connected.
    pub fn feed_count(&self) -> (n: usize)
        ensures
            n == self@.feeds.len(),
    {
        self.feeds.len()
    }
}

/// An event for the aggregator.
#[derive(Clone, Debug, PartialEq, Eq)]
pub enum Event {
    /// A node connected at time `now`.
    NodeConnected { now: u64 },
    /// A report from a node arrived at time `now`.
    NodeReport { node: NodeId, report: Report, now: u64 },
    /// The geolocation lookup for a node succeeded.
    NodeLocated { node: NodeId, location: Location },
    /// A node's connection ended.
    NodeDisconnected { node: NodeId },
    /// A feed connected.
    FeedConnected,
    /// A feed asks to follow a chain.
    FeedSubscribe { feed: FeedId, chain: ChainKey },
    /// A feed asks to follow no chain.
    FeedUnsubscribe { feed: FeedId },
    /// A feed's connection ended.
    FeedDisconnected { feed: FeedId },
}

impl View for Event {
    type V = model::EventView;

    open spec fn view(&self) -> model::EventView {
        match *self {
            Event::NodeConnected { now } => model::EventView::NodeConnected { now },
            Event::NodeReport { node, report, now } => model::EventView::NodeReport {
                node,
                report: report@,
                now,
            },
            Event::NodeLocated { node, location } => model::EventView::NodeLocated {
                node,
                location,
            },
            Event::NodeDisconnected { node } => model::EventView::NodeDisconnected { node },
            Event::FeedConnected => model::EventView::FeedConnected,
            Event::FeedSubscribe { feed, chain } => model::EventView::FeedSubscribe {
                feed,
                chain,
            },
            Event::FeedUnsubscribe { feed } => model::EventView::FeedUnsubscribe { feed },
            Event::FeedDisconnected { feed } => model::EventView::FeedDisconnected { feed },
        }
    }
}

/// What the aggregator answers to an event: the id it assigned, if the event
/// was a connection and an id was free, and the messages to send.
#[derive(Debug)]
pub struct Reaction {
    pub assigned: Option<u64>,
    pub outbox: Vec<Outbound>,
}

} // verus!
