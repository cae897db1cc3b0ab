//! What the relay sends to feeds.
use crate::types::{
    ChainKey, ChainStats, ChainStatsView, FeedId, NodeEntry, NodeEntryView, NodeId,
};
use vstd::prelude::*;

verus! {

/// One message for a feed.
#[derive(Clone, Debug, PartialEq, Eq)]
pub enum FeedMessage {
    /// The whole current state of a chain, sent in answer to a subscription.
    Snapshot { chain: ChainKey, stats: ChainStats, nodes: Vec<NodeEntry> },
    /// The answer to a subscription to a chain that no node belongs to.
    ChainNotFound { chain: ChainKey },
    /// The feed no longer follows this chain: its last node left, or the feed
    /// moved its subscription elsewhere.
    ChainRemoved { chain: ChainKey },
    /// A node joined the chain the feed follows.
    NodeAdded { node: NodeEntry },
    /// A node of the chain the feed follows reported something new.
    NodeUpdated { node: NodeEntry },
    /// A node left the chain the feed follows.
    NodeRemoved { id: NodeId },
    /// The statistics of the chain the feed follows changed.
    ChainUpdated { stats: ChainStats },
}

/// The mathematical value of a [`FeedMessage`].
pub enum FeedMessageView {
    Snapshot { chain: ChainKey, stats: ChainStatsView, nodes: Seq<NodeEntryView> },
    ChainNotFound { chain: ChainKey },
    ChainRemoved { chain: ChainKey },
    NodeAdded { node: NodeEntryView },
    NodeUpdated { node: NodeEntryView },
    NodeRemoved { id: NodeId },
    ChainUpdated { stats: ChainStatsView },
}

/// The values of a list of node entries, in order.
pub open spec fn entries_view(nodes: Seq<NodeEntry>) -> Seq<NodeEntryView> {
    Seq::new(nodes.len(), |i: int| nodes[i]@)
}

impl View for FeedMessage {
    type V = FeedMessageView;

    open spec fn view(&self) -> FeedMessageView {
        match *self {
            FeedMessage::Snapshot { chain, stats, nodes } => FeedMessageView::Snapshot {
                chain,
                stats: stats@,
                nodes: entries_view(nodes@),
            },
            FeedMessage::ChainNotFound { chain } => FeedMessageView::ChainNotFound { chain },
            FeedMessage::ChainRemoved { chain } => FeedMessageView::ChainRemoved { chain },
            FeedMessage::NodeAdded { node } => FeedMessageView::NodeAdded { node: node@ },
            FeedMessage::NodeUpdated { node } => FeedMessageView::NodeUpdated { node: node@ },
            FeedMessage::NodeRemoved { id } => FeedMessageView::NodeRemoved { id },
            FeedMessage::ChainUpdated { stats } => FeedMessageView::ChainUpdated { stats: stats@ },
        }
    }
}

/// A message together with the feed it is for.
#[derive(Clone, Debug, PartialEq, Eq)]
pub struct Outbound {
    pub feed: FeedId,
    pub message: FeedMessage,
}

/// The mathematical value of an [`Outbound`].
pub struct OutboundView {
    pub feed: FeedId,
    pub message: FeedMessageView,
}

impl View for Outbound {
    type V = OutboundView;

    open spec fn view(&self) -> OutboundView {
        OutboundView { feed: self.feed, message: self.message@ }
    }
}

/// The values of a list of addressed messages, in order.
pub open spec fn outbox_view(out: Seq<Outbound>) -> Seq<OutboundView> {
    Seq::new(out.len(), |i: int| out[i]@)
}

/// The same message addressed to each of `feeds`, in their order.
pub open spec fn broadcast(feeds: Seq<FeedId>, message: FeedMessageView) -> Seq<OutboundView> {
    Seq::new(feeds.len(), |i: int| OutboundView { feed: feeds[i], message })
}

/// What the followers of a chain are told after a change: the change itself
/// and, where the chain's statistics are no longer what they were, the new
/// statistics.
pub open spec fn notify(
    feeds: Seq<FeedId>,
    change: FeedMessageView,
    before: ChainStatsView,
    after: ChainStatsView,
) -> Seq<OutboundView> {
    if before == after {
        broadcast(feeds, change)
    } else {
        broadcast(feeds, change) + broadcast(feeds, FeedMessageView::ChainUpdated { stats: after })
    }
}

impl NodeEntry {
    /// A copy with the same value.
    pub fn duplicate(&self) -> (r: NodeEntry)
        ensures
            r@ == self@,
    {
        NodeEntry { id: self.id, record: self.record.duplicate() }
    }
}

impl FeedMessage {
    /// A copy with the same value.
    pub fn duplicate(&self) -> (r: FeedMessage)
        ensures
            r@ == self@,
    {
        match self {
            FeedMessage::Snapshot { chain, stats, nodes } => {
                let mut copy: Vec<NodeEntry> = Vec::new();
                let mut i: usize = 0;
                while i < nodes.len()
                    invariant
                        i <= nodes.len(),
                        copy.len() == i,
                        forall|j: int| 0 <= j < i ==> copy[j]@ == nodes[j]@,
                    decreases nodes.len() - i,
                {
                    copy.push(nodes[i].duplicate());
                    i += 1;
                }
                assert(entries_view(copy@) =~= entries_view(nodes@));
                FeedMessage::Snapshot { chain: *chain, stats: *stats, nodes: copy }
            },
            FeedMessage::ChainNotFound { chain } => FeedMessage::ChainNotFound { chain: *chain },
            FeedMessage::ChainRemoved { chain } => FeedMessage::ChainRemoved { chain: *chain },
            FeedMessage::NodeAdded { node } => FeedMessage::NodeAdded { node: node.duplicate() },
            FeedMessage::NodeUpdated { node } => FeedMessage::NodeUpdated {
                node: node.duplicate(),
            },
            FeedMessage::NodeRemoved { id } => FeedMessage::NodeRemoved { id: *id },
            FeedMessage::ChainUpdated { stats } => FeedMessage::ChainUpdated { stats: *stats },
        }
    }
}

/// Appends `message` to `out` once for each of `feeds`, in their order.
pub fn send_to_all(out: &mut Vec<Outbound>, feeds: &Vec<FeedId>, message: &FeedMessage)
    ensures
        outbox_view(final(out)@) == outbox_view(old(out)@) + broadcast(feeds@, message@),
{
    let ghost before = outbox_view(out@);
    let mut i: usize = 0;
    while i < feeds.len()
        invariant
            i <= feeds.len(),
            outbox_view(out@) == before + broadcast(feeds@.take(i as int), message@),
        decreases feeds.len() - i,
    {
        let ghost prev = outbox_view(out@);
        out.push(Outbound { feed: feeds[i], message: message.duplicate() });
        assert(outbox_view(out@) =~= prev.push(
            OutboundView { feed: feeds[i as int], message: message@ },
        ));
        assert(broadcast(feeds@.take(i as int + 1), message@) =~= broadcast(
            feeds@.take(i as int),
            message@,
        ).push(OutboundView { feed: feeds[i as int], message: message@ }));
        i += 1;
    }
    assert(feeds@.take(feeds.len() as int) =~= feeds@);
}

} // verus!
