//! The bytes that nodes and feeds send, and what they mean.
//!
//! A node's report is a frame of bytes that starts with a tag:
//!
//! | tag | report          | rest of the frame                                         |
//! |-----|-----------------|-----------------------------------------------------------|
//! | 1   | handshake       | genesis identifier, name, version                         |
//! | 2   | best block      | height (8 bytes), hash (32 bytes)                         |
//! | 3   | finalized block | height (8 bytes), hash (32 bytes)                         |
//! | 4   | statistics      | peers (4 bytes), transactions (4 bytes)                   |
//! | 5   | hardware        | processor load (4 bytes), memory (8 bytes)                |
//!
//! Numbers are big-endian. Each field of a handshake is a length byte and that
//! many bytes, and the genesis identifier is not empty. A frame with another
//! tag, or with a byte too few or too many, is malformed.
//!
//! A feed's command is the text `subscribe:` followed by a genesis
//! identifier, or the text `unsubscribe`.
//!
//! A message for a feed is a frame that starts with a tag as well:
//!
//! | tag | message         | rest of the frame                                  |
//! |-----|-----------------|----------------------------------------------------|
//! | 1   | snapshot        | chain key, statistics, number of nodes, the nodes  |
//! | 2   | chain not found | chain key                                          |
//! | 3   | chain removed   | chain key                                          |
//! | 4   | node added      | the node                                           |
//! | 5   | node updated    | the node                                           |
//! | 6   | node removed    | node id                                            |
//! | 7   | chain updated   | statistics                                         |
//!
//! Keys, ids, counts, heights, stamps, times and lengths take eight bytes, the
//! other numbers four. Statistics are the node count, the count of nodes at
//! the best height, and the best and the finalized block; a block is its
//! height and its hash. A node is its id and its record, field by field; a
//! field that may be absent starts with a byte that is 1 if it is there and 0
//! if not, and name and version start with their length. A coordinate is
//! written as its distance from -2^31.
use crate::message::{FeedMessage, FeedMessageView};
use crate::types::{
    Block, BlockKind, ChainKey, ChainStats, ChainStatsView, Location, NodeDetails,
    NodeDetailsView, NodeEntry, NodeEntryView, NodeHardware, NodeRecord, NodeRecordView,
    NodeStats, Report, ReportView, Tip,
};
use vstd::prelude::*;

verus! {

/// The 64-bit FNV-1a hash of `bytes`.
pub open spec fn fnv1a(bytes: Seq<u8>) -> u64
    decreases bytes.len(),
{
    if bytes.len() == 0 {
        0xcbf2_9ce4_8422_2325
    } else {
        (fnv1a(bytes.drop_last()) ^ (bytes.last() as u64)).wrapping_mul(0x0000_0100_0000_01b3)
    }
}

/// The key of the chain with the given genesis identifier: its 64-bit FNV-1a
/// hash. Nodes and feeds that name the same identifier get the same key.
/// Two identifiers with the same hash, should there be any in use, count as
/// one chain.
pub fn chain_key(genesis: &[u8]) -> (key: ChainKey)
    ensures
        key == fnv1a(genesis@),
{
    let mut h: u64 = 0xcbf2_9ce4_8422_2325;
    let mut i: usize = 0;
    assert(genesis@.take(0) =~= Seq::<u8>::empty());
    while i < genesis.len()
        invariant
            i <= genesis.len(),
            h == fnv1a(genesis@.take(i as int)),
        decreases genesis.len() - i,
    {
        assert(genesis@.take(i as int + 1).drop_last() =~= genesis@.take(i as int));
        h = (h ^ (genesis[i] as u64)).wrapping_mul(0x0000_0100_0000_01b3);
        i += 1;
    }
    assert(genesis@.take(genesis.len() as int) =~= genesis@);
    h
}

/// The number that the four bytes from `at` on spell, the first byte the
/// most significant.
pub open spec fn be32(s: Seq<u8>, at: int) -> u32 {
    (((s[at] as int * 256 + s[at + 1] as int) * 256 + s[at + 2] as int) * 256
        + s[at + 3] as int) as u32
}

/// The number that the eight bytes from `at` on spell, the first byte the
/// most significant.
pub open spec fn be64(s: Seq<u8>, at: int) -> u64 {
    (be32(s, at) as int * 0x1_0000_0000 + be32(s, at + 4) as int) as u64
}

/// The hash whose bytes are the 32 bytes of `s` from `at` on.
pub open spec fn hash_at(s: Seq<u8>, at: int) -> [u8; 32] {
    choose|h: [u8; 32]| h@ == s.subrange(at, at + 32)
}

/// Reads four bytes as a number.
fn read_u32(s: &[u8], at: usize) -> (r: u32)
    requires
        at + 4 <= s.len(),
    ensures
        r == be32(s@, at as int),
{
    let a: u32 = s[at] as u32;
    let b: u32 = s[at + 1] as u32;
    let c: u32 = s[at + 2] as u32;
    let d: u32 = s[at + 3] as u32;
    ((a * 256 + b) * 256 + c) * 256 + d
}

/// Reads eight bytes as a number.
fn read_u64(s: &[u8], at: usize) -> (r: u64)
    requires
        at + 8 <= s.len(),
    ensures
        r == be64(s@, at as int),
{
    let high: u64 = read_u32(s, at) as u64;
    let low: u64 = read_u32(s, at + 4) as u64;
    high * 0x1_0000_0000 + low
}

/// Reads 32 bytes as a hash.
fn read_hash(s: &[u8], at: usize) -> (h: [u8; 32])
    requires
        at + 32 <= s.len(),
    ensures
        h == hash_at(s@, at as int),
{
    let mut h: [u8; 32] = [0u8; 32];
    let mut i: usize = 0;
    while i < 32
        invariant
            i <= 32,
            at + 32 <= s.len(),
            forall|j: int| 0 <= j < i ==> h[j] == s[at + j],
        decreases 32 - i,
    {
        h[i] = s[at + i];
        i += 1;
    }
    proof {
        let wanted = s@.subrange(at as int, at as int + 32);
        assert(h@ =~= wanted);
        let chosen = hash_at(s@, at as int);
        assert(chosen@ == wanted);
        assert(chosen =~= h);
    }
    h
}

/// A copy of the bytes of `s` from `from` up to `to`.
fn copy_range(s: &[u8], from: usize, to: usize) -> (v: Vec<u8>)
    requires
        from <= to <= s.len(),
    ensures
        v@ == s@.subrange(from as int, to as int),
{
    let mut v: Vec<u8> = Vec::new();
    let mut i: usize = from;
    while i < to
        invariant
            from <= i <= to,
            to <= s.len(),
            v@ == s@.subrange(from as int, i as int),
        decreases to - i,
    {
        v.push(s[i]);
        assert(v@ =~= s@.subrange(from as int, i as int + 1));
        i += 1;
    }
    v
}

/// Where the three fields of a handshake frame end, if the frame is laid out
/// as one: each field is a length byte and that many bytes, the first field
/// is not empty, and the third ends where the frame ends.
pub open spec fn handshake_layout(frame: Seq<u8>) -> Option<(int, int, int)> {
    if frame.len() < 2 || frame[0] != 1 || frame[1] == 0 {
        None
    } else {
        let genesis_end = 2 + frame[1] as int;
        if frame.len() < genesis_end + 1 {
            None
        } else {
            let name_end = genesis_end + 1 + frame[genesis_end] as int;
            if frame.len() < name_end + 1 {
                None
            } else {
                let version_end = name_end + 1 + frame[name_end] as int;
                if frame.len() != version_end {
                    None
                } else {
                    Some((genesis_end, name_end, version_end))
                }
            }
        }
    }
}

/// What a frame from a node means.
pub open spec fn report_of(frame: Seq<u8>) -> ReportView {
    if frame.len() == 0 {
        ReportView::Malformed
    } else if frame[0] == 1 {
        match handshake_layout(frame) {
            Some((genesis_end, name_end, version_end)) => ReportView::Handshake {
                chain: fnv1a(frame.subrange(2, genesis_end)),
                details: NodeDetailsView {
                    name: frame.subrange(genesis_end + 1, name_end),
                    version: frame.subrange(name_end + 1, version_end),
                },
            },
            None => ReportView::Malformed,
        }
    } else if (frame[0] == 2 || frame[0] == 3) && frame.len() == 41 {
        ReportView::BlockUpdate {
            kind: if frame[0] == 2 {
                BlockKind::Best
            } else {
                BlockKind::Finalized
            },
            block: Block { height: be64(frame, 1), hash: hash_at(frame, 9) },
        }
    } else if frame[0] == 4 && frame.len() == 9 {
        ReportView::StatsUpdate {
            stats: NodeStats { peers: be32(frame, 1), txcount: be32(frame, 5) },
        }
    } else if frame[0] == 5 && frame.len() == 13 {
        ReportView::HardwareUpdate {
            hardware: NodeHardware { cpu: be32(frame, 1), memory: be64(frame, 5) },
        }
    } else {
        ReportView::Malformed
    }
}

/// Reads a frame that starts with the tag of a handshake.
fn decode_handshake(frame: &[u8]) -> (r: Report)
    requires
        frame.len() > 0,
        frame[0] == 1,
    ensures
        r@ == report_of(frame@),
{
    if frame.len() < 2 || frame[1] == 0 {
        return Report::Malformed;
    }
    let genesis_end: usize = 2 + frame[1] as usize;
    if frame.len() < genesis_end + 1 {
        return Report::Malformed;
    }
    let name_end: usize = genesis_end + 1 + frame[genesis_end] as usize;
    if frame.len() < name_end + 1 {
        return Report::Malformed;
    }
    let version_end: usize = name_end + 1 + frame[name_end] as usize;
    if frame.len() != version_end {
        return Report::Malformed;
    }
    let genesis = copy_range(frame, 2, genesis_end);
    let name = copy_range(frame, genesis_end + 1, name_end);
    let version = copy_range(frame, name_end + 1, version_end);
    Report::Handshake {
        chain: chain_key(genesis.as_slice()),
        details: NodeDetails { name, version },
    }
}

/// Reads a frame from a node. Whatever the bytes, the result is a report;
/// what cannot be understood is [`Report::Malformed`].
pub fn decode_report(frame: &[u8]) -> (r: Report)
    ensures
        r@ == report_of(frame@),
{
    if frame.len() == 0 {
        return Report::Malformed;
    }
    let tag = frame[0];
    if tag == 1 {
        decode_handshake(frame)
    } else if (tag == 2 || tag == 3) && frame.len() == 41 {
        let kind = if tag == 2 {
            BlockKind::Best
        } else {
            BlockKind::Finalized
        };
        Report::BlockUpdate {
            kind,
            block: Block { height: read_u64(frame, 1), hash: read_hash(frame, 9) },
        }
    } else if tag == 4 && frame.len() == 9 {
        Report::StatsUpdate {
            stats: NodeStats { peers: read_u32(frame, 1), txcount: read_u32(frame, 5) },
        }
    } else if tag == 5 && frame.len() == 13 {
        Report::HardwareUpdate {
            hardware: NodeHardware { cpu: read_u32(frame, 1), memory: read_u64(frame, 5) },
        }
    } else {
        Report::Malformed
    }
}

/// What a feed can ask for.
#[derive(Clone, Copy, Debug, PartialEq, Eq)]
pub enum FeedCommand {
    /// Follow the chain with this key, instead of any chain followed so far.
    Subscribe { chain: ChainKey },
    /// Follow no chain.
    Unsubscribe,
    /// Anything else. Always ignored.
    Unknown,
}

/// The text `subscribe:`.
pub open spec fn subscribe_word() -> Seq<u8> {
    seq![115u8, 117u8, 98u8, 115u8, 99u8, 114u8, 105u8, 98u8, 101u8, 58u8]
}

/// The text `unsubscribe`.
pub open spec fn unsubscribe_word() -> Seq<u8> {
    seq![117u8, 110u8, 115u8, 117u8, 98u8, 115u8, 99u8, 114u8, 105u8, 98u8, 101u8]
}

/// What a frame from a feed means.
pub open spec fn command_of(frame: Seq<u8>) -> FeedCommand {
    if frame.len() > 10 && frame.take(10) == subscribe_word() {
        FeedCommand::Subscribe { chain: fnv1a(frame.skip(10)) }
    } else if frame == unsubscribe_word() {
        FeedCommand::Unsubscribe
    } else {
        FeedCommand::Unknown
    }
}

/// Whether `frame` begins with `word`.
fn begins_with(frame: &[u8], word: &[u8]) -> (r: bool)
    ensures
        r == (frame.len() >= word.len() && frame@.take(word.len() as int) == word@),
{
    if frame.len() < word.len() {
        return false;
    }
    let mut i: usize = 0;
    while i < word.len()
        invariant
            i <= word.len() <= frame.len(),
            forall|j: int| 0 <= j < i ==> frame[j] == word[j],
        decreases word.len() - i,
    {
        if frame[i] != word[i] {
            assert(frame@.take(word.len() as int)[i as int] != word@[i as int]);
            return false;
        }
        i += 1;
    }
    assert(frame@.take(word.len() as int) =~= word@);
    true
}

/// Reads a frame from a feed. Whatever the bytes, the result is a command;
/// what cannot be understood is [`FeedCommand::Unknown`].
pub fn decode_command(frame: &[u8]) -> (r: FeedCommand)
    ensures
        r == command_of(frame@),
{
    let subscribe: [u8; 10] = [115, 117, 98, 115, 99, 114, 105, 98, 101, 58];
    let unsubscribe: [u8; 11] = [117, 110, 115, 117, 98, 115, 99, 114, 105, 98, 101];
    assert(subscribe@ =~= subscribe_word());
    assert(unsubscribe@ =~= unsubscribe_word());
    if frame.len() > 10 && begins_with(frame, subscribe.as_slice()) {
        let genesis = copy_range(frame, 10, frame.len());
        assert(frame@.skip(10) =~= frame@.subrange(10, frame.len() as int));
        FeedCommand::Subscribe { chain: chain_key(genesis.as_slice()) }
    } else if frame.len() == 11 && begins_with(frame, unsubscribe.as_slice()) {
        assert(frame@.take(11) =~= frame@);
        FeedCommand::Unsubscribe
    } else {
        if frame.len() == 11 {
            assert(frame@.take(11) =~= frame@);
        }
        FeedCommand::Unknown
    }
}

/// The four bytes that spell `x`, the most significant first.
pub open spec fn u32_bytes(x: u32) -> Seq<u8> {
    seq![
        (x / 0x100_0000) as u8,
        ((x / 0x1_0000) % 256) as u8,
        ((x / 0x100) % 256) as u8,
        (x % 256) as u8,
    ]
}

/// The eight bytes that spell `x`, the most significant first.
pub open spec fn u64_bytes(x: u64) -> Seq<u8> {
    u32_bytes((x / 0x1_0000_0000) as u32) + u32_bytes((x % 0x1_0000_0000) as u32)
}

/// The four bytes that spell the distance of `x` from the least `i32`.
pub open spec fn i32_bytes(x: i32) -> Seq<u8> {
    u32_bytes((x + 0x8000_0000) as u32)
}

/// Reading back what was written gives the number that was written.
pub proof fn lemma_numbers_read_back(x: u32, y: u64)
    ensures
        be32(u32_bytes(x), 0) == x,
        be64(u64_bytes(y), 0) == y,
{
    let high = (y / 0x1_0000_0000) as u32;
    let low = (y % 0x1_0000_0000) as u32;
    assert(be32(u32_bytes(high), 0) == high);
    assert(be32(u32_bytes(low), 0) == low);
    let s = u64_bytes(y);
    assert(s =~= u32_bytes(high) + u32_bytes(low));
    assert(be32(s, 0) == high);
    assert(be32(s, 4) == low);
}

/// The bytes of a block: its height and its hash.
pub open spec fn block_bytes(b: Block) -> Seq<u8> {
    u64_bytes(b.height) + b.hash@
}

/// The bytes of a head: its block and its stamp.
pub open spec fn tip_bytes(t: Tip) -> Seq<u8> {
    block_bytes(t.block) + u64_bytes(t.stamp)
}

/// The bytes of a chain's statistics.
pub open spec fn stats_bytes(s: ChainStatsView) -> Seq<u8> {
    u64_bytes(s.node_count as u64) + u64_bytes(s.synced as u64) + block_bytes(s.best)
        + block_bytes(s.finalized)
}

/// The bytes of a text: its length and its bytes.
pub open spec fn text_bytes(t: Seq<u8>) -> Seq<u8> {
    u64_bytes(t.len() as u64) + t
}

/// The bytes of a chain key that may be absent.
pub open spec fn chain_bytes(c: Option<ChainKey>) -> Seq<u8> {
    match c {
        Some(key) => seq![1u8] + u64_bytes(key),
        None => seq![0u8],
    }
}

/// The bytes of a location that may be absent.
pub open spec fn location_bytes(l: Option<Location>) -> Seq<u8> {
    match l {
        Some(at) => seq![1u8] + i32_bytes(at.latitude) + i32_bytes(at.longitude),
        None => seq![0u8],
    }
}

/// The bytes of what says who a node is: its chain, name and version.
pub open spec fn identity_bytes(r: NodeRecordView) -> Seq<u8> {
    chain_bytes(r.chain) + text_bytes(r.details.name) + text_bytes(r.details.version)
}

/// The bytes of a node's heads and of the time it was last heard of.
pub open spec fn heads_bytes(r: NodeRecordView) -> Seq<u8> {
    tip_bytes(r.best) + tip_bytes(r.finalized) + u64_bytes(r.last_seen)
}

/// The bytes of a node's statistics: peers, transactions, processor load and
/// memory.
pub open spec fn vitals_bytes(r: NodeRecordView) -> Seq<u8> {
    u32_bytes(r.stats.peers) + u32_bytes(r.stats.txcount) + u32_bytes(r.hardware.cpu) + u64_bytes(
        r.hardware.memory,
    )
}

/// The bytes of a node's record.
pub open spec fn record_bytes(r: NodeRecordView) -> Seq<u8> {
    identity_bytes(r) + heads_bytes(r) + location_bytes(r.location) + vitals_bytes(r)
}

/// The bytes of a node: its id and its record.
pub open spec fn entry_bytes(e: NodeEntryView) -> Seq<u8> {
    u64_bytes(e.id) + record_bytes(e.record)
}

/// The bytes of a list of nodes, one after the other.
pub open spec fn entries_bytes(nodes: Seq<NodeEntryView>) -> Seq<u8>
    decreases nodes.len(),
{
    if nodes.len() == 0 {
        Seq::empty()
    } else {
        entries_bytes(nodes.drop_last()) + entry_bytes(nodes.last())
    }
}

/// The frame that carries a message to a feed.
pub open spec fn message_bytes(m: FeedMessageView) -> Seq<u8> {
    match m {
        FeedMessageView::Snapshot { chain, stats, nodes } => seq![1u8] + u64_bytes(chain)
            + stats_bytes(stats) + u64_bytes(nodes.len() as u64) + entries_bytes(nodes),
        FeedMessageView::ChainNotFound { chain } => seq![2u8] + u64_bytes(chain),
        FeedMessageView::ChainRemoved { chain } => seq![3u8] + u64_bytes(chain),
        FeedMessageView::NodeAdded { node } => seq![4u8] + entry_bytes(node),
        FeedMessageView::NodeUpdated { node } => seq![5u8] + entry_bytes(node),
        FeedMessageView::NodeRemoved { id } => seq![6u8] + u64_bytes(id),
        FeedMessageView::ChainUpdated { stats } => seq![7u8] + stats_bytes(stats),
    }
}

// Each of the functions below appends the bytes of one value to a frame.

fn put_byte(out: &mut Vec<u8>, b: u8)
    ensures
        final(out)@ == old(out)@ + seq![b],
{
    out.push(b);
    assert(out@ =~= old(out)@ + seq![b]);
}

fn put_u32(out: &mut Vec<u8>, x: u32)
    ensures
        final(out)@ == old(out)@ + u32_bytes(x),
{
    out.push((x / 0x100_0000) as u8);
    out.push(((x / 0x1_0000) % 256) as u8);
    out.push(((x / 0x100) % 256) as u8);
    out.push((x % 256) as u8);
    assert(out@ =~= old(out)@ + u32_bytes(x));
}

fn put_u64(out: &mut Vec<u8>, x: u64)
    ensures
        final(out)@ == old(out)@ + u64_bytes(x),
{
    put_u32(out, (x / 0x1_0000_0000) as u32);
    put_u32(out, (x % 0x1_0000_0000) as u32);
    assert(out@ =~= old(out)@ + u64_bytes(x));
}

fn put_i32(out: &mut Vec<u8>, x: i32)
    ensures
        final(out)@ == old(out)@ + i32_bytes(x),
{
    put_u32(out, (x as i64 + 0x8000_0000) as u32);
}

fn put_bytes(out: &mut Vec<u8>, bytes: &[u8])
    ensures
        final(out)@ == old(out)@ + bytes@,
{
    let mut i: usize = 0;
    assert(out@ =~= old(out)@ + bytes@.take(0));
    while i < bytes.len()
        invariant
            i <= bytes.len(),
            out@ == old(out)@ + bytes@.take(i as int),
        decreases bytes.len() - i,
    {
        out.push(bytes[i]);
        assert(out@ =~= old(out)@ + bytes@.take(i as int + 1));
        i += 1;
    }
    assert(bytes@.take(bytes.len() as int) =~= bytes@);
}

fn put_block(out: &mut Vec<u8>, b: &Block)
    ensures
        final(out)@ == old(out)@ + block_bytes(*b),
{
    put_u64(out, b.height);
    put_bytes(out, b.hash.as_slice());
    assert(out@ =~= old(out)@ + block_bytes(*b));
}

fn put_tip(out: &mut Vec<u8>, t: &Tip)
    ensures
        final(out)@ == old(out)@ + tip_bytes(*t),
{
    put_block(out, &t.block);
    put_u64(out, t.stamp);
    assert(out@ =~= old(out)@ + tip_bytes(*t));
}

fn put_stats(out: &mut Vec<u8>, s: &ChainStats)
    ensures
        final(out)@ == old(out)@ + stats_bytes(s@),
{
    put_u64(out, s.node_count as u64);
    put_u64(out, s.synced as u64);
    put_block(out, &s.best);
    put_block(out, &s.finalized);
    assert(out@ =~= old(out)@ + stats_bytes(s@));
}

fn put_text(out: &mut Vec<u8>, t: &Vec<u8>)
    ensures
        final(out)@ == old(out)@ + text_bytes(t@),
{
    put_u64(out, t.len() as u64);
    put_bytes(out, t.as_slice());
    assert(out@ =~= old(out)@ + text_bytes(t@));
}

fn put_chain(out: &mut Vec<u8>, chain: Option<ChainKey>)
    ensures
        final(out)@ == old(out)@ + chain_bytes(chain),
{
    match chain {
        Some(key) => {
            put_byte(out, 1);
            put_u64(out, key);
            assert(out@ =~= old(out)@ + chain_bytes(chain));
        },
        None => {
            put_byte(out, 0);
        },
    }
}

fn put_location(out: &mut Vec<u8>, location: Option<Location>)
    ensures
        final(out)@ == old(out)@ + location_bytes(location),
{
    match location {
        Some(at) => {
            put_byte(out, 1);
            put_i32(out, at.latitude);
            put_i32(out, at.longitude);
            assert(out@ =~= old(out)@ + location_bytes(location));
        },
        None => {
            put_byte(out, 0);
        },
    }
}

fn put_identity(out: &mut Vec<u8>, r: &NodeRecord)
    ensures
        final(out)@ == old(out)@ + identity_bytes(r@),
{
    put_chain(out, r.chain);
    put_text(out, &r.details.name);
    put_text(out, &r.details.version);
    assert(out@ =~= old(out)@ + identity_bytes(r@));
}

fn put_heads(out: &mut Vec<u8>, r: &NodeRecord)
    ensures
        final(out)@ == old(out)@ + heads_bytes(r@),
{
    put_tip(out, &r.best);
    put_tip(out, &r.finalized);
    put_u64(out, r.last_seen);
    assert(out@ =~= old(out)@ + heads_bytes(r@));
}

fn put_vitals(out: &mut Vec<u8>, r: &NodeRecord)
    ensures
        final(out)@ == old(out)@ + vitals_bytes(r@),
{
    put_u32(out, r.stats.peers);
    put_u32(out, r.stats.txcount);
    put_u32(out, r.hardware.cpu);
    put_u64(out, r.hardware.memory);
    assert(out@ =~= old(out)@ + vitals_bytes(r@));
}

fn put_record(out: &mut Vec<u8>, r: &NodeRecord)
    ensures
        final(out)@ == old(out)@ + record_bytes(r@),
{
    put_identity(out, r);
    put_heads(out, r);
    put_location(out, r.location);
    put_vitals(out, r);
    assert(out@ =~= old(out)@ + record_bytes(r@));
}

fn put_entry(out: &mut Vec<u8>, e: &NodeEntry)
    ensures
        final(out)@ == old(out)@ + entry_bytes(e@),
{
    put_u64(out, e.id);
    put_record(out, &e.record);
    assert(out@ =~= old(out)@ + entry_bytes(e@));
}

/// The frame that carries `message` to a feed.
pub fn encode_message(message: &FeedMessage) -> (frame: Vec<u8>)
    ensures
        frame@ == message_bytes(message@),
{
    let mut out: Vec<u8> = Vec::new();
    match message {
        FeedMessage::Snapshot { chain, stats, nodes } => {
            put_byte(&mut out, 1);
            put_u64(&mut out, *chain);
            put_stats(&mut out, stats);
            put_u64(&mut out, nodes.len() as u64);
            let ghost head = out@;
            let ghost views = crate::message::entries_view(nodes@);
            let mut i: usize = 0;
            assert(views.take(0) =~= Seq::empty());
            assert(out@ =~= head + entries_bytes(views.take(0)));
            while i < nodes.len()
                invariant
                    i <= nodes.len(),
                    views == crate::message::entries_view(nodes@),
                    out@ == head + entries_bytes(views.take(i as int)),
                decreases nodes.len() - i,
            {
                let ghost before = out@;
                put_entry(&mut out, &nodes[i]);
                proof {
                    let longer = views.take(i as int + 1);
                    assert(longer.drop_last() =~= views.take(i as int));
                    assert(longer.last() == nodes[i as int]@);
                    assert(out@ =~= head + entries_bytes(longer));
                }
                i += 1;
            }
            assert(views.take(nodes.len() as int) =~= views);
            assert(out@ =~= message_bytes(message@));
        },
        FeedMessage::ChainNotFound { chain } => {
            put_byte(&mut out, 2);
            put_u64(&mut out, *chain);
            assert(out@ =~= message_bytes(message@));
        },
        FeedMessage::ChainRemoved { chain } => {
            put_byte(&mut out, 3);
            put_u64(&mut out, *chain);
            assert(out@ =~= message_bytes(message@));
        },
        FeedMessage::NodeAdded { node } => {
            put_byte(&mut out, 4);
            put_entry(&mut out, node);
            assert(out@ =~= message_bytes(message@));
        },
        FeedMessage::NodeUpdated { node } => {
            put_byte(&mut out, 5);
            put_entry(&mut out, node);
            assert(out@ =~= message_bytes(message@));
        },
        FeedMessage::NodeRemoved { id } => {
            put_byte(&mut out, 6);
            put_u64(&mut out, *id);
            assert(out@ =~= message_bytes(message@));
        },
        FeedMessage::ChainUpdated { stats } => {
            put_byte(&mut out, 7);
            put_stats(&mut out, stats);
            assert(out@ =~= message_bytes(message@));
        },
    }
    out
}

} // verus!
