//! Plain data shared by every part of the relay.
use vstd::prelude::*;

verus! {

/// Identifies one node connection. Assigned by the aggregator in increasing
/// order and never handed out twice.
pub type NodeId = u64;

/// Identifies one feed connection, assigned like a [`NodeId`].
pub type FeedId = u64;

/// Identifies a network. Nodes that report the same key are aggregated together.
pub type ChainKey = u64;

/// A block as a node reports it.
#[derive(Clone, Copy, Debug, PartialEq, Eq)]
pub struct Block {
    pub height: u64,
    pub hash: [u8; 32],
}

/// Which of a node's two chain heads a block update speaks of.
#[derive(Clone, Copy, Debug, PartialEq, Eq)]
pub enum BlockKind {
    Best,
    Finalized,
}

/// A block together with the logical time at which it was observed.
///
/// The aggregator stamps every accepted block update with a fresh, strictly
/// increasing number. Stamp 0 marks a head that was never reported.
#[derive(Clone, Copy, Debug, PartialEq, Eq)]
pub struct Tip {
    pub block: Block,
    pub stamp: u64,
}

/// A position on the globe, each coordinate in millionths of a degree.
#[derive(Clone, Copy, Debug, PartialEq, Eq)]
pub struct Location {
    pub latitude: i32,
    pub longitude: i32,
}

/// Counters a node reports about its own activity.
#[derive(Clone, Copy, Debug, PartialEq, Eq)]
pub struct NodeStats {
    pub peers: u32,
    pub txcount: u32,
}

/// What a node reports about the machine it runs on: processor load in
/// hundredths of a percent and memory in use in bytes.
#[derive(Clone, Copy, Debug, PartialEq, Eq)]
pub struct NodeHardware {
    pub cpu: u32,
    pub memory: u64,
}

/// Display metadata a node sends with its handshake, as the bytes it sent.
#[derive(Clone, Debug, PartialEq, Eq)]
pub struct NodeDetails {
    pub name: Vec<u8>,
    pub version: Vec<u8>,
}

/// The mathematical value of a [`NodeDetails`].
pub struct NodeDetailsView {
    pub name: Seq<u8>,
    pub version: Seq<u8>,
}

impl View for NodeDetails {
    type V = NodeDetailsView;

    open spec fn view(&self) -> NodeDetailsView {
        NodeDetailsView { name: self.name@, version: self.version@ }
    }
}

/// Everything the relay knows about one connected node.
#[derive(Clone, Debug, PartialEq, Eq)]
pub struct NodeRecord {
    /// The chain the node belongs to; `None` until its handshake arrives.
    pub chain: Option<ChainKey>,
    pub details: NodeDetails,
    pub best: Tip,
    pub finalized: Tip,
    /// Time of the last report that was accepted from the node.
    pub last_seen: u64,
    /// Filled in when the geolocation lookup for the node completes.
    pub location: Option<Location>,
    pub stats: NodeStats,
    pub hardware: NodeHardware,
}

/// The mathematical value of a [`NodeRecord`].
pub struct NodeRecordView {
    pub chain: Option<ChainKey>,
    pub details: NodeDetailsView,
    pub best: Tip,
    pub finalized: Tip,
    pub last_seen: u64,
    pub location: Option<Location>,
    pub stats: NodeStats,
    pub hardware: NodeHardware,
}

impl View for NodeRecord {
    type V = NodeRecordView;

    open spec fn view(&self) -> NodeRecordView {
        NodeRecordView {
            chain: self.chain,
            details: self.details@,
            best: self.best,
            finalized: self.finalized,
            last_seen: self.last_seen,
            location: self.location,
            stats: self.stats,
            hardware: self.hardware,
        }
    }
}

/// A node record together with the id it is known by, as feeds are told of it.
#[derive(Clone, Debug, PartialEq, Eq)]
pub struct NodeEntry {
    pub id: NodeId,
    pub record: NodeRecord,
}

/// The mathematical value of a [`NodeEntry`].
pub struct NodeEntryView {
    pub id: NodeId,
    pub record: NodeRecordView,
}

impl View for NodeEntry {
    type V = NodeEntryView;

    open spec fn view(&self) -> NodeEntryView {
        NodeEntryView { id: self.id, record: self.record@ }
    }
}

/// What the relay knows about one connected feed.
#[derive(Clone, Copy, Debug, PartialEq, Eq)]
pub struct FeedRecord {
    /// The chain the feed currently follows, at most one at a time.
    pub subscription: Option<ChainKey>,
}

/// The statistics of a chain that feeds can see.
#[derive(Clone, Copy, Debug, PartialEq, Eq)]
pub struct ChainStats {
    /// How many nodes belong to the chain.
    pub node_count: usize,
    /// How many of them report a best block as high as the chain's.
    pub synced: usize,
    /// The highest best block among the nodes.
    pub best: Block,
    /// The highest finalized block among the nodes.
    pub finalized: Block,
}

/// The mathematical value of a [`ChainStats`].
pub struct ChainStatsView {
    pub node_count: nat,
    pub synced: nat,
    pub best: Block,
    pub finalized: Block,
}

impl View for ChainStats {
    type V = ChainStatsView;

    open spec fn view(&self) -> ChainStatsView {
        ChainStatsView {
            node_count: self.node_count as nat,
            synced: self.synced as nat,
            best: self.best,
            finalized: self.finalized,
        }
    }
}

/// What a node can tell the relay.
#[derive(Clone, Debug, PartialEq, Eq)]
pub enum Report {
    /// Names the node's chain. Must come first.
    Handshake { chain: ChainKey, details: NodeDetails },
    BlockUpdate { kind: BlockKind, block: Block },
    StatsUpdate { stats: NodeStats },
    HardwareUpdate { hardware: NodeHardware },
    /// Anything that could not be understood. Always ignored.
    Malformed,
}

/// The mathematical value of a [`Report`].
pub enum ReportView {
    Handshake { chain: ChainKey, details: NodeDetailsView },
    BlockUpdate { kind: BlockKind, block: Block },
    StatsUpdate { stats: NodeStats },
    HardwareUpdate { hardware: NodeHardware },
    Malformed,
}

impl View for Report {
    type V = ReportView;

    open spec fn view(&self) -> ReportView {
        match *self {
            Report::Handshake { chain, details } => ReportView::Handshake {
                chain,
                details: details@,
            },
            Report::BlockUpdate { kind, block } => ReportView::BlockUpdate { kind, block },
            Report::StatsUpdate { stats } => ReportView::StatsUpdate { stats },
            Report::HardwareUpdate { hardware } => ReportView::HardwareUpdate { hardware },
            Report::Malformed => ReportView::Malformed,
        }
    }
}

/// The height-0 block with an all-zero hash.
pub open spec fn zero_block() -> Block {
    Block { height: 0, hash: vstd::array::spec_array_fill_for_copy_type::<u8, 32>(0u8) }
}

/// The head of a node that has not reported one yet.
pub open spec fn zero_tip() -> Tip {
    Tip { block: zero_block(), stamp: 0 }
}

/// The order by which chain heads are compared: by height, and among equal
/// heights by recency.
pub open spec fn tip_le(a: Tip, b: Tip) -> bool {
    a.block.height < b.block.height || (a.block.height == b.block.height && a.stamp <= b.stamp)
}

/// The record of a node that has just connected at time `now`.
pub open spec fn fresh_node(now: u64) -> NodeRecordView {
    NodeRecordView {
        chain: None,
        details: NodeDetailsView { name: Seq::empty(), version: Seq::empty() },
        best: zero_tip(),
        finalized: zero_tip(),
        last_seen: now,
        location: None,
        stats: NodeStats { peers: 0, txcount: 0 },
        hardware: NodeHardware { cpu: 0, memory: 0 },
    }
}

impl Tip {
    /// The head of a node that has not reported one yet.
    pub fn zero() -> (t: Tip)
        ensures
            t == zero_tip(),
    {
        Tip { block: Block { height: 0, hash: [0u8; 32] }, stamp: 0 }
    }

    /// Whether `other` is at least as high as `self`, or equally high and at
    /// least as recent.
    pub fn le(&self, other: &Tip) -> (r: bool)
        ensures
            r == tip_le(*self, *other),
    {
        self.block.height < other.block.height || (self.block.height == other.block.height
            && self.stamp <= other.stamp)
    }
}

impl Block {
    /// Whether two blocks have the same height and the same hash.
    pub fn same(&self, other: &Block) -> (r: bool)
        ensures
            r == (*self == *other),
    {
        if self.height != other.height {
            return false;
        }
        let mut i: usize = 0;
        while i < 32
            invariant
                i <= 32,
                forall|j: int| 0 <= j < i ==> self.hash[j] == other.hash[j],
            decreases 32 - i,
        {
            if self.hash[i] != other.hash[i] {
                return false;
            }
            i += 1;
        }
        assert(self.hash =~= other.hash);
        true
    }
}

impl ChainStats {
    /// Whether two sets of statistics agree in every field.
    pub fn same(&self, other: &ChainStats) -> (r: bool)
        ensures
            r == (self@ == other@),
    {
        self.node_count == other.node_count && self.synced == other.synced && self.best.same(
            &other.best,
        ) && self.finalized.same(&other.finalized)
    }
}

impl NodeDetails {
    /// A copy with the same value.
    pub fn duplicate(&self) -> (r: NodeDetails)
        ensures
            r@ == self@,
    {
        let name = self.name.clone();
        let version = self.version.clone();
        assert(name@ =~= self.name@);
        assert(version@ =~= self.version@);
        NodeDetails { name, version }
    }
}

impl NodeRecord {
    /// The record of a node that has just connected at time `now`.
    pub fn fresh(now: u64) -> (r: NodeRecord)
        ensures
            r@ == fresh_node(now),
    {
        NodeRecord {
            chain: None,
            details: NodeDetails { name: Vec::new(), version: Vec::new() },
            best: Tip::zero(),
            finalized: Tip::zero(),
            last_seen: now,
            location: None,
            stats: NodeStats { peers: 0, txcount: 0 },
            hardware: NodeHardware { cpu: 0, memory: 0 },
        }
    }

    /// A copy with the same value.
    pub fn duplicate(&self) -> (r: NodeRecord)
        ensures
            r@ == self@,
    {
        NodeRecord {
            chain: self.chain,
            details: self.details.duplicate(),
            best: self.best,
            finalized: self.finalized,
            last_seen: self.last_seen,
            location: self.location,
            stats: self.stats,
            hardware: self.hardware,
        }
    }
}

impl NodeRecordView {
    /// The head of the given kind.
    pub open spec fn tip(self, kind: BlockKind) -> Tip {
        match kind {
            BlockKind::Best => self.best,
            BlockKind::Finalized => self.finalized,
        }
    }

    /// The record with its head of the given kind replaced.
    pub open spec fn with_tip(self, kind: BlockKind, tip: Tip) -> NodeRecordView {
        match kind {
            BlockKind::Best => NodeRecordView { best: tip, ..self },
            BlockKind::Finalized => NodeRecordView { finalized: tip, ..self },
        }
    }
}

} // verus!
