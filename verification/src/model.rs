//! The mathematical model of the relay: its state and, for each event it
//! consumes, the state that follows and the messages that go out.
//!
//! Every function here is total. An event that refers to something the state
//! does not hold (a node that already left, a feed that never connected)
//! leaves the state as it is and sends nothing.
use crate::message::{broadcast, notify, FeedMessageView, OutboundView};
use crate::types::{
    fresh_node, tip_le, zero_tip, Block, BlockKind, ChainKey, ChainStatsView, FeedId, FeedRecord,
    Location, NodeDetailsView, NodeEntryView, NodeHardware, NodeId, NodeRecordView, NodeStats,
    ReportView, Tip,
};
use vstd::prelude::*;

verus! {

/// One chain: the nodes that belong to it, the feeds that follow it, and its
/// highest best and finalized blocks.
pub struct ChainView {
    /// Member nodes, in the order they joined.
    pub members: Seq<NodeId>,
    /// Subscribed feeds, in the order they subscribed.
    pub subscribers: Seq<FeedId>,
    pub best: Tip,
    pub finalized: Tip,
    /// How many members report a best block as high as `best`. Kept up to
    /// date with every report, without looking at the other members.
    pub synced: usize,
}

impl ChainView {
    /// The chain's head of the given kind.
    pub open spec fn tip(self, kind: BlockKind) -> Tip {
        match kind {
            BlockKind::Best => self.best,
            BlockKind::Finalized => self.finalized,
        }
    }

    /// The chain with its head of the given kind replaced.
    pub open spec fn with_tip(self, kind: BlockKind, tip: Tip) -> ChainView {
        match kind {
            BlockKind::Best => ChainView { best: tip, ..self },
            BlockKind::Finalized => ChainView { finalized: tip, ..self },
        }
    }

    /// What feeds are told about the chain as a whole.
    pub open spec fn stats(self) -> ChainStatsView {
        ChainStatsView {
            node_count: self.members.len(),
            synced: self.synced as nat,
            best: self.best.block,
            finalized: self.finalized.block,
        }
    }
}

/// A chain without members or subscribers.
pub open spec fn empty_chain() -> ChainView {
    ChainView {
        members: Seq::empty(),
        subscribers: Seq::empty(),
        best: zero_tip(),
        finalized: zero_tip(),
        synced: 0,
    }
}

/// How many of `members` report a best block of the given height. Members
/// that `nodes` does not hold do not count.
pub open spec fn count_at(
    nodes: Map<NodeId, NodeRecordView>,
    members: Seq<NodeId>,
    height: u64,
) -> nat
    decreases members.len(),
{
    if members.len() == 0 {
        0
    } else {
        let rest = count_at(nodes, members.drop_last(), height);
        let id = members.last();
        if nodes.contains_key(id) && nodes[id].best.block.height == height {
            rest + 1
        } else {
            rest
        }
    }
}

/// How many members are at the chain's best height after one member changed
/// its best block.
///
/// Until now `synced` members were at height `before`, the height of the
/// chain's best block; that block is at height `after` now. The member was at
/// height `was` (`None` for a member that has just joined) and is at height
/// `is` now. If the height of the chain's best block has changed, the member
/// that changed it is the only one there. If not, the count changes by what
/// the member itself did: it left the height, reached it, or neither.
pub open spec fn recount(
    synced: usize,
    before: u64,
    after: u64,
    was: Option<u64>,
    is: u64,
) -> usize {
    if after != before {
        1
    } else if was == Some(before) && is != before {
        if synced > 0 {
            (synced - 1) as usize
        } else {
            0
        }
    } else if was != Some(before) && is == before {
        if synced < usize::MAX {
            (synced + 1) as usize
        } else {
            synced
        }
    } else {
        synced
    }
}

/// The whole state of the relay.
pub struct State {
    pub nodes: Map<NodeId, NodeRecordView>,
    pub feeds: Map<FeedId, FeedRecord>,
    pub chains: Map<ChainKey, ChainView>,
    /// The id the next node will get.
    pub next_node: u64,
    /// The id the next feed will get.
    pub next_feed: u64,
    /// The stamp of the latest block update that was accepted.
    pub clock: u64,
}

/// The state that follows an event, and what is sent because of it.
pub struct Step {
    pub state: State,
    pub outbox: Seq<OutboundView>,
}

/// The state before anything has connected.
pub open spec fn init() -> State {
    State {
        nodes: Map::empty(),
        feeds: Map::empty(),
        chains: Map::empty(),
        next_node: 0,
        next_feed: 0,
        clock: 0,
    }
}

/// A step that changes nothing and sends nothing.
pub open spec fn quiet(s: State) -> Step {
    Step { state: s, outbox: Seq::empty() }
}

/// `ids` with every occurrence of `id` taken out.
pub open spec fn without(ids: Seq<u64>, id: u64) -> Seq<u64> {
    ids.filter(|x: u64| x != id)
}

/// Taking `id` out of a list that ends in `x` drops `x` if it is `id` and
/// otherwise keeps it at the end.
pub proof fn lemma_without_push(ids: Seq<u64>, x: u64, id: u64)
    ensures
        without(ids.push(x), id) == if x != id {
            without(ids, id).push(x)
        } else {
            without(ids, id)
        },
        without(Seq::empty(), id) == Seq::<u64>::empty(),
{
    reveal(Seq::filter);
    assert(ids.push(x).drop_last() =~= ids);
}

/// The greatest head of the given kind among `members`, by [`tip_le`]; among
/// equal heads the one of the later member. Members that `nodes` does not
/// hold are passed over, and without any member the result is the zero head.
pub open spec fn max_tip(
    nodes: Map<NodeId, NodeRecordView>,
    members: Seq<NodeId>,
    kind: BlockKind,
) -> Tip
    decreases members.len(),
{
    if members.len() == 0 {
        zero_tip()
    } else {
        let rest = max_tip(nodes, members.drop_last(), kind);
        let id = members.last();
        if nodes.contains_key(id) && tip_le(rest, nodes[id].tip(kind)) {
            nodes[id].tip(kind)
        } else {
            rest
        }
    }
}

/// The records of `members`, in their order, each with its id. Members that
/// `nodes` does not hold are passed over.
pub open spec fn roster(nodes: Map<NodeId, NodeRecordView>, members: Seq<NodeId>) -> Seq<
    NodeEntryView,
>
    decreases members.len(),
{
    if members.len() == 0 {
        Seq::empty()
    } else {
        let rest = roster(nodes, members.drop_last());
        let id = members.last();
        if nodes.contains_key(id) {
            rest.push(NodeEntryView { id, record: nodes[id] })
        } else {
            rest
        }
    }
}

/// `feeds` with the subscription of each of `subscribers` cleared.
pub open spec fn release(feeds: Map<FeedId, FeedRecord>, subscribers: Seq<FeedId>) -> Map<
    FeedId,
    FeedRecord,
> {
    Map::new(
        |f: FeedId| feeds.contains_key(f),
        |f: FeedId|
            if subscribers.contains(f) {
                FeedRecord { subscription: None }
            } else {
                feeds[f]
            },
    )
}

/// A node connects at time `now`. It gets the next free id and a fresh record
/// without a chain. When the ids are used up nothing changes and no id is given.
pub open spec fn node_connected(s: State, now: u64) -> (State, Option<NodeId>) {
    if s.next_node == u64::MAX {
        (s, None)
    } else {
        (
            State {
                nodes: s.nodes.insert(s.next_node, fresh_node(now)),
                next_node: (s.next_node + 1) as u64,
                ..s
            },
            Some(s.next_node),
        )
    }
}

/// A feed connects. It gets the next free id and no subscription. When the ids
/// are used up nothing changes and no id is given.
pub open spec fn feed_connected(s: State) -> (State, Option<FeedId>) {
    if s.next_feed == u64::MAX {
        (s, None)
    } else {
        (
            State {
                feeds: s.feeds.insert(s.next_feed, FeedRecord { subscription: None }),
                next_feed: (s.next_feed + 1) as u64,
                ..s
            },
            Some(s.next_feed),
        )
    }
}

/// The chain with the given key as a joining node finds it: as it is, or
/// empty if no node belongs to it yet.
pub open spec fn chain_to_join(s: State, chain: ChainKey) -> ChainView {
    if s.chains.contains_key(chain) {
        s.chains[chain]
    } else {
        empty_chain()
    }
}

/// Whether a handshake by node `id` for `chain` is taken: the node is known
/// and has no chain yet, and the chain can take one more member.
pub open spec fn may_join(s: State, id: NodeId, chain: ChainKey) -> bool {
    &&& s.nodes.contains_key(id)
    &&& s.nodes[id].chain is None
    &&& chain_to_join(s, chain).members.len() < usize::MAX
}

/// A handshake: the node joins `chain`, which is created if no node belongs to
/// it yet. The chain's followers are told of the new node. A handshake from a
/// node that already has a chain, or from an unknown node, is ignored, and so
/// is one for a chain that has as many members as can be counted.
pub open spec fn handshake(
    s: State,
    id: NodeId,
    chain: ChainKey,
    details: NodeDetailsView,
    now: u64,
) -> Step {
    if !may_join(s, id, chain) {
        quiet(s)
    } else {
        let record = NodeRecordView { chain: Some(chain), details, last_seen: now, ..s.nodes[id] };
        let before = chain_to_join(s, chain);
        let best = if tip_le(before.best, record.best) {
            record.best
        } else {
            before.best
        };
        let after = ChainView {
            members: before.members.push(id),
            best,
            finalized: if tip_le(before.finalized, record.finalized) {
                record.finalized
            } else {
                before.finalized
            },
            synced: recount(
                before.synced,
                before.best.block.height,
                best.block.height,
                None,
                record.best.block.height,
            ),
            ..before
        };
        Step {
            state: State {
                nodes: s.nodes.insert(id, record),
                chains: s.chains.insert(chain, after),
                ..s
            },
            outbox: notify(
                before.subscribers,
                FeedMessageView::NodeAdded { node: NodeEntryView { id, record } },
                before.stats(),
                after.stats(),
            ),
        }
    }
}

/// The chain the node `id` reports to: the node is known, has joined a chain,
/// and that chain is in the state.
pub open spec fn reporting_chain(s: State, id: NodeId) -> Option<ChainKey> {
    if s.nodes.contains_key(id) && s.nodes[id].chain is Some && s.chains.contains_key(
        s.nodes[id].chain.unwrap(),
    ) {
        s.nodes[id].chain
    } else {
        None
    }
}

/// A block update: the node's head of the given kind becomes `block`, stamped
/// with the next tick of the clock, and the chain's head follows: it becomes
/// the new head if that is at least as high, it is looked for again among all
/// members if the node held it until now, and it stays otherwise. The count
/// of the members at the chain's best height follows too: it is taken anew
/// where the head was looked for again, and adjusted for the one node
/// otherwise. The chain's followers are told of the node's new record and, if
/// the chain's statistics changed, of those. Ignored when the node has no
/// chain or the clock has run out.
pub open spec fn block_update(
    s: State,
    id: NodeId,
    kind: BlockKind,
    block: Block,
    now: u64,
) -> Step {
    if reporting_chain(s, id) is None || s.clock == u64::MAX {
        quiet(s)
    } else {
        let key = reporting_chain(s, id).unwrap();
        let chain = s.chains[key];
        let tip = Tip { block, stamp: (s.clock + 1) as u64 };
        let record = NodeRecordView { last_seen: now, ..s.nodes[id] }.with_tip(kind, tip);
        let nodes = s.nodes.insert(id, record);
        let sought = !tip_le(chain.tip(kind), tip) && s.nodes[id].tip(kind).stamp == chain.tip(
            kind,
        ).stamp;
        let head = if tip_le(chain.tip(kind), tip) {
            tip
        } else if sought {
            max_tip(nodes, chain.members, kind)
        } else {
            chain.tip(kind)
        };
        let synced = if kind is Finalized {
            chain.synced
        } else if sought {
            count_at(nodes, chain.members, head.block.height) as usize
        } else {
            recount(
                chain.synced,
                chain.best.block.height,
                head.block.height,
                Some(s.nodes[id].best.block.height),
                block.height,
            )
        };
        let after = ChainView { synced, ..chain.with_tip(kind, head) };
        Step {
            state: State { nodes, chains: s.chains.insert(key, after), clock: tip.stamp, ..s },
            outbox: notify(
                chain.subscribers,
                FeedMessageView::NodeUpdated { node: NodeEntryView { id, record } },
                chain.stats(),
                after.stats(),
            ),
        }
    }
}

/// The node's record is replaced by `record` and the followers of its chain
/// are told.
pub open spec fn node_changed(s: State, id: NodeId, key: ChainKey, record: NodeRecordView) -> Step {
    Step {
        state: State { nodes: s.nodes.insert(id, record), ..s },
        outbox: broadcast(
            s.chains[key].subscribers,
            FeedMessageView::NodeUpdated { node: NodeEntryView { id, record } },
        ),
    }
}

/// A statistics update. Ignored when the node has no chain.
pub open spec fn stats_update(s: State, id: NodeId, stats: NodeStats, now: u64) -> Step {
    if reporting_chain(s, id) is None {
        quiet(s)
    } else {
        node_changed(
            s,
            id,
            reporting_chain(s, id).unwrap(),
            NodeRecordView { stats, last_seen: now, ..s.nodes[id] },
        )
    }
}

/// A hardware update. Ignored when the node has no chain.
pub open spec fn hardware_update(s: State, id: NodeId, hardware: NodeHardware, now: u64) -> Step {
    if reporting_chain(s, id) is None {
        quiet(s)
    } else {
        node_changed(
            s,
            id,
            reporting_chain(s, id).unwrap(),
            NodeRecordView { hardware, last_seen: now, ..s.nodes[id] },
        )
    }
}

/// A report from node `id` that arrives at time `now`.
pub open spec fn node_report(s: State, id: NodeId, report: ReportView, now: u64) -> Step {
    match report {
        ReportView::Handshake { chain, details } => handshake(s, id, chain, details, now),
        ReportView::BlockUpdate { kind, block } => block_update(s, id, kind, block, now),
        ReportView::StatsUpdate { stats } => stats_update(s, id, stats, now),
        ReportView::HardwareUpdate { hardware } => hardware_update(s, id, hardware, now),
        ReportView::Malformed => quiet(s),
    }
}

/// The location of node `id` has been found. It is attached to the node's
/// record; if the node has joined a chain, the chain's followers are told.
pub open spec fn node_located(s: State, id: NodeId, location: Location) -> Step {
    if !s.nodes.contains_key(id) {
        quiet(s)
    } else {
        let record = NodeRecordView { location: Some(location), ..s.nodes[id] };
        if reporting_chain(s, id) is None {
            Step { state: State { nodes: s.nodes.insert(id, record), ..s }, outbox: Seq::empty() }
        } else {
            node_changed(s, id, reporting_chain(s, id).unwrap(), record)
        }
    }
}

/// Node `id` disconnects. Its record is dropped and it leaves its chain. If it
/// was the last member the chain is dropped too, its followers lose their
/// subscription and are told that the chain is gone. Otherwise the chain's
/// heads and the count of the members at its best height are taken anew
/// from the remaining members, and the followers are told that the node left
/// and what the statistics now are.
pub open spec fn node_disconnected(s: State, id: NodeId) -> Step {
    if !s.nodes.contains_key(id) {
        quiet(s)
    } else if reporting_chain(s, id) is None {
        Step { state: State { nodes: s.nodes.remove(id), ..s }, outbox: Seq::empty() }
    } else {
        let key = reporting_chain(s, id).unwrap();
        let chain = s.chains[key];
        let nodes = s.nodes.remove(id);
        let members = without(chain.members, id);
        if members.len() == 0 {
            Step {
                state: State {
                    nodes,
                    chains: s.chains.remove(key),
                    feeds: release(s.feeds, chain.subscribers),
                    ..s
                },
                outbox: broadcast(
                    chain.subscribers,
                    FeedMessageView::ChainRemoved { chain: key },
                ),
            }
        } else {
            let best = max_tip(nodes, members, BlockKind::Best);
            let after = ChainView {
                members,
                best,
                finalized: max_tip(nodes, members, BlockKind::Finalized),
                synced: count_at(nodes, members, best.block.height) as usize,
                ..chain
            };
            Step {
                state: State { nodes, chains: s.chains.insert(key, after), ..s },
                outbox: notify(
                    chain.subscribers,
                    FeedMessageView::NodeRemoved { id },
                    chain.stats(),
                    after.stats(),
                ),
            }
        }
    }
}

/// Feed `feed`, which the state holds, gives up its subscription, if it has
/// one: it leaves the chain's subscribers and is sent a notice for that chain.
pub open spec fn leave(s: State, feed: FeedId) -> Step {
    match s.feeds[feed].subscription {
        None => quiet(s),
        Some(key) => Step {
            state: State {
                feeds: s.feeds.insert(feed, FeedRecord { subscription: None }),
                chains: if s.chains.contains_key(key) {
                    s.chains.insert(
                        key,
                        ChainView {
                            subscribers: without(s.chains[key].subscribers, feed),
                            ..s.chains[key]
                        },
                    )
                } else {
                    s.chains
                },
                ..s
            },
            outbox: seq![
                OutboundView { feed, message: FeedMessageView::ChainRemoved { chain: key } },
            ],
        },
    }
}

/// Feed `feed` subscribes to `chain`. Any subscription it had is given up
/// first, as in [`leave`]. If the chain exists the feed becomes its latest
/// subscriber and is sent one snapshot with the chain's statistics and the
/// record of every member; if not, it is left without a subscription and is
/// sent a not-found notice.
pub open spec fn feed_subscribe(s: State, feed: FeedId, chain: ChainKey) -> Step {
    if !s.feeds.contains_key(feed) {
        quiet(s)
    } else {
        let left = leave(s, feed);
        let t = left.state;
        if t.chains.contains_key(chain) {
            let entry = t.chains[chain];
            Step {
                state: State {
                    feeds: t.feeds.insert(feed, FeedRecord { subscription: Some(chain) }),
                    chains: t.chains.insert(
                        chain,
                        ChainView { subscribers: entry.subscribers.push(feed), ..entry },
                    ),
                    ..t
                },
                outbox: left.outbox.push(
                    OutboundView {
                        feed,
                        message: FeedMessageView::Snapshot {
                            chain,
                            stats: entry.stats(),
                            nodes: roster(t.nodes, entry.members),
                        },
                    },
                ),
            }
        } else {
            Step {
                state: t,
                outbox: left.outbox.push(
                    OutboundView { feed, message: FeedMessageView::ChainNotFound { chain } },
                ),
            }
        }
    }
}

/// Feed `feed` gives up its subscription, if it has one.
pub open spec fn feed_unsubscribe(s: State, feed: FeedId) -> Step {
    if !s.feeds.contains_key(feed) {
        quiet(s)
    } else {
        leave(s, feed)
    }
}

/// Feed `feed` disconnects: it leaves the chain it follows and its record is
/// dropped. Nothing is sent.
pub open spec fn feed_disconnected(s: State, feed: FeedId) -> Step {
    if !s.feeds.contains_key(feed) {
        quiet(s)
    } else {
        let t = leave(s, feed).state;
        Step { state: State { feeds: t.feeds.remove(feed), ..t }, outbox: Seq::empty() }
    }
}

/// An event the relay consumes.
pub enum EventView {
    NodeConnected { now: u64 },
    NodeReport { node: NodeId, report: ReportView, now: u64 },
    NodeLocated { node: NodeId, location: Location },
    NodeDisconnected { node: NodeId },
    FeedConnected,
    FeedSubscribe { feed: FeedId, chain: ChainKey },
    FeedUnsubscribe { feed: FeedId },
    FeedDisconnected { feed: FeedId },
}

/// What an event leads to: the next state, the id that was assigned if the
/// event was a connection, and the messages to send.
pub struct ReactionView {
    pub state: State,
    pub assigned: Option<u64>,
    pub outbox: Seq<OutboundView>,
}

/// A step as a reaction that assigns no id.
pub open spec fn plain(step: Step) -> ReactionView {
    ReactionView { state: step.state, assigned: None, outbox: step.outbox }
}

/// The reaction of the relay in state `s` to `event`.
pub open spec fn react(s: State, event: EventView) -> ReactionView {
    match event {
        EventView::NodeConnected { now } => ReactionView {
            state: node_connected(s, now).0,
            assigned: node_connected(s, now).1,
            outbox: Seq::empty(),
        },
        EventView::NodeReport { node, report, now } => plain(node_report(s, node, report, now)),
        EventView::NodeLocated { node, location } => plain(node_located(s, node, location)),
        EventView::NodeDisconnected { node } => plain(node_disconnected(s, node)),
        EventView::FeedConnected => ReactionView {
            state: feed_connected(s).0,
            assigned: feed_connected(s).1,
            outbox: Seq::empty(),
        },
        EventView::FeedSubscribe { feed, chain } => plain(feed_subscribe(s, feed, chain)),
        EventView::FeedUnsubscribe { feed } => plain(feed_unsubscribe(s, feed)),
        EventView::FeedDisconnected { feed } => plain(feed_disconnected(s, feed)),
    }
}

/// The state after the relay, starting in `s`, has consumed `events` in order.
pub open spec fn run(s: State, events: Seq<EventView>) -> State
    decreases events.len(),
{
    if events.len() == 0 {
        s
    } else {
        react(run(s, events.drop_last()), events.last()).state
    }
}

} // verus!
