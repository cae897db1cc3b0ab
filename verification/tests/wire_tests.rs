use telemetry::message::FeedMessage;
use telemetry::types::{
    Block, BlockKind, ChainStats, Location, NodeDetails, NodeEntry, NodeHardware, NodeRecord,
    NodeStats, Report, Tip,
};
use telemetry::wire::{chain_key, decode_command, decode_report, encode_message, FeedCommand};

#[test]
fn chain_key_is_fnv1a() {
    assert_eq!(chain_key(b""), 0xcbf2_9ce4_8422_2325);
    assert_eq!(chain_key(b"a"), 0xaf63_dc4c_8601_ec8c);
    assert_eq!(chain_key(b"foobar"), 0x8594_4171_f739_67e8);
    assert_ne!(chain_key(b"X"), chain_key(b"Y"));
}

#[test]
fn empty_frame_is_malformed() {
    assert_eq!(decode_report(&[]), Report::Malformed);
}

#[test]
fn unknown_tag_is_malformed() {
    assert_eq!(decode_report(&[0]), Report::Malformed);
    assert_eq!(decode_report(&[6, 1, 2, 3]), Report::Malformed);
    assert_eq!(decode_report(&[255; 41]), Report::Malformed);
}

#[test]
fn handshake_frame_is_decoded() {
    let mut frame = vec![1u8, 1, b'X', 5];
    frame.extend_from_slice(b"alice");
    frame.push(3);
    frame.extend_from_slice(b"1.0");
    assert_eq!(
        decode_report(&frame),
        Report::Handshake {
            chain: chain_key(b"X"),
            details: NodeDetails { name: b"alice".to_vec(), version: b"1.0".to_vec() },
        }
    );
}

#[test]
fn handshake_fields_may_be_empty_but_for_the_genesis() {
    assert_eq!(
        decode_report(&[1, 2, b'o', b'k', 0, 0]),
        Report::Handshake {
            chain: chain_key(b"ok"),
            details: NodeDetails { name: vec![], version: vec![] },
        }
    );
    assert_eq!(decode_report(&[1, 0, 0, 0]), Report::Malformed);
}

#[test]
fn handshake_of_wrong_length_is_malformed() {
    assert_eq!(decode_report(&[1]), Report::Malformed);
    assert_eq!(decode_report(&[1, 1]), Report::Malformed);
    assert_eq!(decode_report(&[1, 1, b'X']), Report::Malformed);
    assert_eq!(decode_report(&[1, 1, b'X', 0]), Report::Malformed);
    assert_eq!(decode_report(&[1, 1, b'X', 2, b'a', 0]), Report::Malformed);
    assert_eq!(decode_report(&[1, 1, b'X', 0, 0, 0]), Report::Malformed);
    assert_eq!(decode_report(&[1, 1, b'X', 0, 1]), Report::Malformed);
}

fn block_frame(tag: u8, height: [u8; 8], fill: u8) -> Vec<u8> {
    let mut frame = vec![tag];
    frame.extend_from_slice(&height);
    frame.extend_from_slice(&[fill; 32]);
    frame
}

#[test]
fn block_frames_are_decoded() {
    let frame = block_frame(2, [0, 0, 0, 0, 0, 0, 1, 2], 7);
    assert_eq!(
        decode_report(&frame),
        Report::BlockUpdate { kind: BlockKind::Best, block: Block { height: 258, hash: [7; 32] } }
    );
    let frame = block_frame(3, [1, 2, 3, 4, 5, 6, 7, 8], 9);
    assert_eq!(
        decode_report(&frame),
        Report::BlockUpdate {
            kind: BlockKind::Finalized,
            block: Block { height: 0x0102_0304_0506_0708, hash: [9; 32] },
        }
    );
    let frame = block_frame(2, [255; 8], 0);
    assert_eq!(
        decode_report(&frame),
        Report::BlockUpdate { kind: BlockKind::Best, block: Block { height: u64::MAX, hash: [0; 32] } }
    );
}

#[test]
fn block_hash_keeps_the_order_of_its_bytes() {
    let mut frame = vec![2u8, 0, 0, 0, 0, 0, 0, 0, 1];
    let mut hash = [0u8; 32];
    for i in 0..32 {
        hash[i] = i as u8 + 100;
        frame.push(i as u8 + 100);
    }
    assert_eq!(
        decode_report(&frame),
        Report::BlockUpdate { kind: BlockKind::Best, block: Block { height: 1, hash } }
    );
}

#[test]
fn block_frame_of_wrong_length_is_malformed() {
    let mut frame = block_frame(2, [0; 8], 1);
    frame.push(0);
    assert_eq!(decode_report(&frame), Report::Malformed);
    frame.truncate(40);
    assert_eq!(decode_report(&frame), Report::Malformed);
}

#[test]
fn statistics_frame_is_decoded() {
    assert_eq!(
        decode_report(&[4, 0, 0, 1, 0, 0, 0, 0, 5]),
        Report::StatsUpdate { stats: NodeStats { peers: 256, txcount: 5 } }
    );
    assert_eq!(
        decode_report(&[4, 255, 255, 255, 255, 0x12, 0x34, 0x56, 0x78]),
        Report::StatsUpdate { stats: NodeStats { peers: u32::MAX, txcount: 0x1234_5678 } }
    );
    assert_eq!(decode_report(&[4, 0, 0, 1, 0, 0, 0, 0]), Report::Malformed);
    assert_eq!(decode_report(&[4, 0, 0, 1, 0, 0, 0, 0, 5, 0]), Report::Malformed);
}

#[test]
fn hardware_frame_is_decoded() {
    assert_eq!(
        decode_report(&[5, 0, 0, 4, 226, 0, 0, 0, 0, 64, 0, 0, 0]),
        Report::HardwareUpdate { hardware: NodeHardware { cpu: 1250, memory: 1 << 30 } }
    );
    assert_eq!(decode_report(&[5, 0, 0, 4, 226]), Report::Malformed);
}

#[test]
fn subscribe_command_names_the_chain() {
    assert_eq!(decode_command(b"subscribe:X"), FeedCommand::Subscribe { chain: chain_key(b"X") });
    assert_eq!(
        decode_command(b"subscribe:polkadot"),
        FeedCommand::Subscribe { chain: chain_key(b"polkadot") }
    );
    assert_eq!(
        decode_command(b"subscribe:a:b"),
        FeedCommand::Subscribe { chain: chain_key(b"a:b") }
    );
}

#[test]
fn unsubscribe_command_is_recognized() {
    assert_eq!(decode_command(b"unsubscribe"), FeedCommand::Unsubscribe);
}

#[test]
fn other_commands_are_unknown() {
    assert_eq!(decode_command(b""), FeedCommand::Unknown);
    assert_eq!(decode_command(b"subscribe:"), FeedCommand::Unknown);
    assert_eq!(decode_command(b"subscribe"), FeedCommand::Unknown);
    assert_eq!(decode_command(b"Subscribe:X"), FeedCommand::Unknown);
    assert_eq!(decode_command(b"unsubscribe "), FeedCommand::Unknown);
    assert_eq!(decode_command(b"unsubscribf"), FeedCommand::Unknown);
    assert_eq!(decode_command(b"ping"), FeedCommand::Unknown);
}

fn stats() -> ChainStats {
    ChainStats {
        node_count: 3,
        synced: 2,
        best: Block { height: 0x0a0b, hash: [0x11; 32] },
        finalized: Block { height: 9, hash: [0x22; 32] },
    }
}

fn stats_bytes() -> Vec<u8> {
    let mut bytes = vec![0, 0, 0, 0, 0, 0, 0, 3, 0, 0, 0, 0, 0, 0, 0, 2];
    bytes.extend_from_slice(&[0, 0, 0, 0, 0, 0, 0x0a, 0x0b]);
    bytes.extend_from_slice(&[0x11; 32]);
    bytes.extend_from_slice(&[0, 0, 0, 0, 0, 0, 0, 9]);
    bytes.extend_from_slice(&[0x22; 32]);
    bytes
}

fn node() -> NodeEntry {
    NodeEntry {
        id: 0x0102_0304_0506_0708,
        record: NodeRecord {
            chain: Some(0xffee_ddcc_bbaa_9988),
            details: NodeDetails { name: b"ab".to_vec(), version: b"1".to_vec() },
            best: Tip { block: Block { height: 5, hash: [0x33; 32] }, stamp: 7 },
            finalized: Tip { block: Block { height: 4, hash: [0x44; 32] }, stamp: 6 },
            last_seen: 0x10,
            location: Some(Location { latitude: -1, longitude: 1 }),
            stats: NodeStats { peers: 0x0100, txcount: 2 },
            hardware: NodeHardware { cpu: 3, memory: 0x1_0000_0000 },
        },
    }
}

fn node_bytes() -> Vec<u8> {
    let mut bytes = vec![1, 2, 3, 4, 5, 6, 7, 8];
    bytes.push(1);
    bytes.extend_from_slice(&[0xff, 0xee, 0xdd, 0xcc, 0xbb, 0xaa, 0x99, 0x88]);
    bytes.extend_from_slice(&[0, 0, 0, 0, 0, 0, 0, 2, b'a', b'b']);
    bytes.extend_from_slice(&[0, 0, 0, 0, 0, 0, 0, 1, b'1']);
    bytes.extend_from_slice(&[0, 0, 0, 0, 0, 0, 0, 5]);
    bytes.extend_from_slice(&[0x33; 32]);
    bytes.extend_from_slice(&[0, 0, 0, 0, 0, 0, 0, 7]);
    bytes.extend_from_slice(&[0, 0, 0, 0, 0, 0, 0, 4]);
    bytes.extend_from_slice(&[0x44; 32]);
    bytes.extend_from_slice(&[0, 0, 0, 0, 0, 0, 0, 6]);
    bytes.extend_from_slice(&[0, 0, 0, 0, 0, 0, 0, 0x10]);
    bytes.push(1);
    bytes.extend_from_slice(&[0x7f, 0xff, 0xff, 0xff]);
    bytes.extend_from_slice(&[0x80, 0, 0, 1]);
    bytes.extend_from_slice(&[0, 0, 1, 0]);
    bytes.extend_from_slice(&[0, 0, 0, 2]);
    bytes.extend_from_slice(&[0, 0, 0, 3]);
    bytes.extend_from_slice(&[0, 0, 0, 1, 0, 0, 0, 0]);
    bytes
}

#[test]
fn notices_are_encoded() {
    assert_eq!(
        encode_message(&FeedMessage::ChainNotFound { chain: 0x0102_0304_0506_0708 }),
        vec![2, 1, 2, 3, 4, 5, 6, 7, 8]
    );
    assert_eq!(
        encode_message(&FeedMessage::ChainRemoved { chain: u64::MAX }),
        vec![3, 255, 255, 255, 255, 255, 255, 255, 255]
    );
    assert_eq!(encode_message(&FeedMessage::NodeRemoved { id: 258 }), vec![6, 0, 0, 0, 0, 0, 0, 1, 2]);
}

#[test]
fn statistics_are_encoded() {
    let mut expected = vec![7];
    expected.extend(stats_bytes());
    assert_eq!(encode_message(&FeedMessage::ChainUpdated { stats: stats() }), expected);
    assert_eq!(expected.len(), 97);
}

#[test]
fn nodes_are_encoded_field_by_field() {
    let mut expected = vec![4];
    expected.extend(node_bytes());
    assert_eq!(encode_message(&FeedMessage::NodeAdded { node: node() }), expected);
    expected[0] = 5;
    assert_eq!(encode_message(&FeedMessage::NodeUpdated { node: node() }), expected);
}

#[test]
fn absent_fields_take_one_byte() {
    let mut bare = node();
    bare.record.chain = None;
    bare.record.location = None;
    bare.record.details = NodeDetails { name: vec![], version: vec![] };
    let frame = encode_message(&FeedMessage::NodeAdded { node: bare });
    assert_eq!(frame.len(), 1 + node_bytes().len() - 8 - 8 - 3);
    assert_eq!(&frame[..10], &[4, 1, 2, 3, 4, 5, 6, 7, 8, 0]);
    assert_eq!(&frame[10..26], &[0; 16]);
    // best head, finalized head and the time of the last report come next, then the location
    assert_eq!(frame[26 + 48 + 48 + 8], 0);
}

#[test]
fn coordinates_are_encoded_from_the_least_up() {
    let mut far = node();
    far.record.location = Some(Location { latitude: i32::MIN, longitude: i32::MAX });
    let frame = encode_message(&FeedMessage::NodeAdded { node: far });
    let at = 1 + 8 + 9 + 10 + 9 + 48 + 48 + 8;
    assert_eq!(&frame[at..at + 9], &[1, 0, 0, 0, 0, 255, 255, 255, 255]);
}

#[test]
fn snapshot_is_encoded_with_all_its_nodes() {
    let mut second = node();
    second.id = 9;
    let message = FeedMessage::Snapshot {
        chain: 0x0a,
        stats: stats(),
        nodes: vec![node(), second.clone()],
    };
    let mut expected = vec![1, 0, 0, 0, 0, 0, 0, 0, 0x0a];
    expected.extend(stats_bytes());
    expected.extend_from_slice(&[0, 0, 0, 0, 0, 0, 0, 2]);
    expected.extend(node_bytes());
    let mut second_bytes = node_bytes();
    second_bytes[..8].copy_from_slice(&[0, 0, 0, 0, 0, 0, 0, 9]);
    expected.extend(second_bytes);
    assert_eq!(encode_message(&message), expected);

    let empty = FeedMessage::Snapshot { chain: 0x0a, stats: stats(), nodes: vec![] };
    assert_eq!(encode_message(&empty).len(), 1 + 8 + 96 + 8);
}
