use telemetry::aggregator::{Aggregator, Event};
use telemetry::message::{FeedMessage, Outbound};
use telemetry::types::{
    Block, BlockKind, ChainStats, FeedRecord, Location, NodeDetails, NodeEntry, NodeHardware,
    NodeStats, Report,
};
use telemetry::wire::chain_key;

fn block(height: u64, fill: u8) -> Block {
    Block { height, hash: [fill; 32] }
}

fn handshake(chain: u64, name: &str) -> Report {
    Report::Handshake {
        chain,
        details: NodeDetails { name: name.as_bytes().to_vec(), version: b"1.0".to_vec() },
    }
}

fn best(height: u64, fill: u8) -> Report {
    Report::BlockUpdate { kind: BlockKind::Best, block: block(height, fill) }
}

fn finalized(height: u64, fill: u8) -> Report {
    Report::BlockUpdate { kind: BlockKind::Finalized, block: block(height, fill) }
}

/// Connects a node and has it join `chain`.
fn join(a: &mut Aggregator, chain: u64, name: &str) -> u64 {
    let id = a.node_connected(0).unwrap();
    a.node_report(id, handshake(chain, name), 0);
    id
}

fn entry(a: &Aggregator, id: u64) -> NodeEntry {
    NodeEntry { id, record: a.node(id).unwrap() }
}

#[test]
fn new_aggregator_is_empty() {
    let a = Aggregator::new();
    assert_eq!(a.node_count(), 0);
    assert_eq!(a.feed_count(), 0);
    assert_eq!(a.chain_count(), 0);
    assert_eq!(a.chain_stats(chain_key(b"X")), None);
}

#[test]
fn ids_are_assigned_in_increasing_order() {
    let mut a = Aggregator::new();
    assert_eq!(a.node_connected(5), Some(0));
    assert_eq!(a.node_connected(6), Some(1));
    assert_eq!(a.feed_connected(), Some(0));
    assert_eq!(a.feed_connected(), Some(1));
    a.node_disconnected(0);
    assert_eq!(a.node_connected(7), Some(2));
}

#[test]
fn connected_node_has_no_chain_yet() {
    let mut a = Aggregator::new();
    let id = a.node_connected(42).unwrap();
    let record = a.node(id).unwrap();
    assert_eq!(record.chain, None);
    assert_eq!(record.last_seen, 42);
    assert_eq!(record.location, None);
    assert_eq!(record.best.block, block(0, 0));
    assert_eq!(record.best.stamp, 0);
    assert_eq!(a.chain_count(), 0);
}

#[test]
fn best_height_follows_the_highest_member() {
    let mut a = Aggregator::new();
    let x = chain_key(b"X");
    let node_a = a.node_connected(0).unwrap();
    a.node_report(node_a, handshake(x, "A"), 1);
    a.node_report(node_a, best(10, 1), 2);
    let node_b = a.node_connected(3).unwrap();
    a.node_report(node_b, handshake(x, "B"), 4);
    a.node_report(node_b, best(15, 2), 5);
    assert_eq!(a.chain_stats(x).unwrap().best.height, 15);
    a.node_disconnected(node_b);
    assert_eq!(a.chain_stats(x).unwrap().best.height, 10);
    assert_eq!(a.chain_stats(x).unwrap().best, block(10, 1));
    assert_eq!(a.chain_stats(x).unwrap().node_count, 1);
}

#[test]
fn subscribing_to_a_missing_chain_is_answered_with_not_found() {
    let mut a = Aggregator::new();
    let x = chain_key(b"X");
    let f = a.feed_connected().unwrap();
    let out = a.feed_subscribe(f, x);
    assert_eq!(out, vec![Outbound { feed: f, message: FeedMessage::ChainNotFound { chain: x } }]);
    assert_eq!(a.feed(f), Some(FeedRecord { subscription: None }));

    // the chain appears: the feed is not subscribed by itself
    let id = a.node_connected(0).unwrap();
    let out = a.node_report(id, handshake(x, "A"), 1);
    assert_eq!(out, vec![]);
    assert_eq!(a.feed(f), Some(FeedRecord { subscription: None }));
    assert_eq!(a.subscribers(x), Some(vec![]));

    // it has to ask again, and then gets a snapshot with the one member
    let out = a.feed_subscribe(f, x);
    assert_eq!(out.len(), 1);
    assert_eq!(out[0].feed, f);
    match &out[0].message {
        FeedMessage::Snapshot { chain, stats, nodes } => {
            assert_eq!(*chain, x);
            assert_eq!(stats.node_count, 1);
            assert_eq!(nodes, &vec![entry(&a, id)]);
        },
        other => panic!("expected a snapshot, got {:?}", other),
    }
    assert_eq!(a.feed(f), Some(FeedRecord { subscription: Some(x) }));
    assert_eq!(a.subscribers(x), Some(vec![f]));
}

#[test]
fn switching_subscription_leaves_the_old_chain() {
    let mut a = Aggregator::new();
    let x = chain_key(b"X");
    let y = chain_key(b"Y");
    let in_x = join(&mut a, x, "A");
    let in_y = join(&mut a, y, "B");
    let f = a.feed_connected().unwrap();
    a.feed_subscribe(f, x);
    assert_eq!(a.subscribers(x), Some(vec![f]));

    let out = a.feed_subscribe(f, y);
    assert_eq!(out.len(), 2);
    assert_eq!(out[0], Outbound { feed: f, message: FeedMessage::ChainRemoved { chain: x } });
    assert_eq!(
        out[1],
        Outbound {
            feed: f,
            message: FeedMessage::Snapshot {
                chain: y,
                stats: a.chain_stats(y).unwrap(),
                nodes: vec![entry(&a, in_y)],
            },
        }
    );
    assert_eq!(a.subscribers(x), Some(vec![]));
    assert_eq!(a.subscribers(y), Some(vec![f]));
    assert_eq!(a.feed(f), Some(FeedRecord { subscription: Some(y) }));

    // updates of the old chain no longer reach the feed
    assert_eq!(a.node_report(in_x, best(3, 3), 9), vec![]);
}

#[test]
fn switching_to_a_missing_chain_leaves_the_feed_without_subscription() {
    let mut a = Aggregator::new();
    let x = chain_key(b"X");
    let y = chain_key(b"Y");
    join(&mut a, x, "A");
    let f = a.feed_connected().unwrap();
    a.feed_subscribe(f, x);
    let out = a.feed_subscribe(f, y);
    assert_eq!(
        out,
        vec![
            Outbound { feed: f, message: FeedMessage::ChainRemoved { chain: x } },
            Outbound { feed: f, message: FeedMessage::ChainNotFound { chain: y } },
        ]
    );
    assert_eq!(a.feed(f), Some(FeedRecord { subscription: None }));
    assert_eq!(a.subscribers(x), Some(vec![]));
}

#[test]
fn chain_exists_exactly_while_it_has_members() {
    let mut a = Aggregator::new();
    let x = chain_key(b"X");
    let first = a.node_connected(0).unwrap();
    assert_eq!(a.members(x), None);
    a.node_report(first, handshake(x, "A"), 1);
    assert_eq!(a.members(x), Some(vec![first]));
    let second = join(&mut a, x, "B");
    assert_eq!(a.members(x), Some(vec![first, second]));
    assert_eq!(a.chain_count(), 1);
    a.node_disconnected(first);
    assert_eq!(a.members(x), Some(vec![second]));
    a.node_disconnected(second);
    assert_eq!(a.members(x), None);
    assert_eq!(a.chain_count(), 0);
    assert_eq!(a.node_count(), 0);
}

#[test]
fn last_node_leaving_tells_subscribers_the_chain_is_gone() {
    let mut a = Aggregator::new();
    let x = chain_key(b"X");
    let id = join(&mut a, x, "A");
    let f = a.feed_connected().unwrap();
    let g = a.feed_connected().unwrap();
    a.feed_subscribe(f, x);
    a.feed_subscribe(g, x);
    let out = a.node_disconnected(id);
    assert_eq!(
        out,
        vec![
            Outbound { feed: f, message: FeedMessage::ChainRemoved { chain: x } },
            Outbound { feed: g, message: FeedMessage::ChainRemoved { chain: x } },
        ]
    );
    assert_eq!(a.feed(f), Some(FeedRecord { subscription: None }));
    assert_eq!(a.feed(g), Some(FeedRecord { subscription: None }));
    assert_eq!(a.chain_stats(x), None);

    // a chain of the same name that appears later starts without subscribers
    join(&mut a, x, "B");
    assert_eq!(a.subscribers(x), Some(vec![]));
}

#[test]
fn snapshot_lists_every_member_once() {
    let mut a = Aggregator::new();
    let x = chain_key(b"X");
    let n0 = join(&mut a, x, "A");
    let n1 = join(&mut a, x, "B");
    let n2 = join(&mut a, x, "C");
    a.node_report(n1, best(7, 7), 3);
    a.node_report(n2, Report::StatsUpdate { stats: NodeStats { peers: 8, txcount: 2 } }, 4);
    let f = a.feed_connected().unwrap();
    let out = a.feed_subscribe(f, x);
    assert_eq!(out.len(), 1);
    assert_eq!(
        out[0],
        Outbound {
            feed: f,
            message: FeedMessage::Snapshot {
                chain: x,
                stats: ChainStats {
                    node_count: 3,
                    synced: 1,
                    best: block(7, 7),
                    finalized: block(0, 0),
                },
                nodes: vec![entry(&a, n0), entry(&a, n1), entry(&a, n2)],
            },
        }
    );
    let snapshots = out.iter().filter(|o| matches!(o.message, FeedMessage::Snapshot { .. })).count();
    assert_eq!(snapshots, 1);
}

#[test]
fn subscribing_again_to_the_same_chain_resends_the_snapshot() {
    let mut a = Aggregator::new();
    let x = chain_key(b"X");
    join(&mut a, x, "A");
    let f = a.feed_connected().unwrap();
    let g = a.feed_connected().unwrap();
    a.feed_subscribe(f, x);
    a.feed_subscribe(g, x);
    let out = a.feed_subscribe(f, x);
    assert_eq!(out.len(), 2);
    assert_eq!(out[0].message, FeedMessage::ChainRemoved { chain: x });
    assert!(matches!(out[1].message, FeedMessage::Snapshot { .. }));
    // the feed is listed once, now as the latest subscriber
    assert_eq!(a.subscribers(x), Some(vec![g, f]));
}

#[test]
fn block_update_is_sent_to_subscribers_with_new_statistics() {
    let mut a = Aggregator::new();
    let x = chain_key(b"X");
    let id = join(&mut a, x, "A");
    let f = a.feed_connected().unwrap();
    a.feed_subscribe(f, x);
    let out = a.node_report(id, best(4, 9), 11);
    assert_eq!(
        out,
        vec![
            Outbound { feed: f, message: FeedMessage::NodeUpdated { node: entry(&a, id) } },
            Outbound {
                feed: f,
                message: FeedMessage::ChainUpdated {
                    stats: ChainStats {
                        node_count: 1,
                        synced: 1,
                        best: block(4, 9),
                        finalized: block(0, 0),
                    },
                },
            },
        ]
    );
    let record = a.node(id).unwrap();
    assert_eq!(record.best.block, block(4, 9));
    assert_eq!(record.best.stamp, 1);
    assert_eq!(record.last_seen, 11);
}

#[test]
fn update_below_the_chain_head_changes_no_statistics() {
    let mut a = Aggregator::new();
    let x = chain_key(b"X");
    let high = join(&mut a, x, "A");
    let low = join(&mut a, x, "B");
    a.node_report(high, best(20, 1), 1);
    let f = a.feed_connected().unwrap();
    a.feed_subscribe(f, x);
    let out = a.node_report(low, best(5, 2), 2);
    assert_eq!(
        out,
        vec![Outbound { feed: f, message: FeedMessage::NodeUpdated { node: entry(&a, low) } }]
    );
    assert_eq!(a.chain_stats(x).unwrap().best, block(20, 1));
}

#[test]
fn equal_heights_keep_the_latest_hash() {
    let mut a = Aggregator::new();
    let x = chain_key(b"X");
    let first = join(&mut a, x, "A");
    let second = join(&mut a, x, "B");
    a.node_report(first, best(10, 0xaa), 1);
    a.node_report(second, best(10, 0xbb), 2);
    assert_eq!(a.chain_stats(x).unwrap().best, block(10, 0xbb));
    a.node_report(first, best(10, 0xcc), 3);
    assert_eq!(a.chain_stats(x).unwrap().best, block(10, 0xcc));
    // when the latest reporter leaves, the other's observation is what is left
    a.node_disconnected(first);
    assert_eq!(a.chain_stats(x).unwrap().best, block(10, 0xbb));
}

#[test]
fn head_is_found_again_when_its_holder_falls_back() {
    let mut a = Aggregator::new();
    let x = chain_key(b"X");
    let n0 = join(&mut a, x, "A");
    let n1 = join(&mut a, x, "B");
    let n2 = join(&mut a, x, "C");
    a.node_report(n0, best(10, 1), 1);
    a.node_report(n1, best(30, 2), 2);
    a.node_report(n2, best(20, 3), 3);
    assert_eq!(a.chain_stats(x).unwrap().best.height, 30);
    a.node_report(n1, best(15, 4), 4);
    assert_eq!(a.chain_stats(x).unwrap().best, block(20, 3));
    a.node_report(n2, best(1, 5), 5);
    assert_eq!(a.chain_stats(x).unwrap().best, block(15, 4));
}

#[test]
fn finalized_head_is_kept_apart_from_best() {
    let mut a = Aggregator::new();
    let x = chain_key(b"X");
    let n0 = join(&mut a, x, "A");
    let n1 = join(&mut a, x, "B");
    a.node_report(n0, best(10, 1), 1);
    a.node_report(n0, finalized(8, 2), 2);
    a.node_report(n1, finalized(9, 3), 3);
    let stats = a.chain_stats(x).unwrap();
    assert_eq!(stats.best, block(10, 1));
    assert_eq!(stats.finalized, block(9, 3));
    a.node_disconnected(n1);
    let stats = a.chain_stats(x).unwrap();
    assert_eq!(stats.best, block(10, 1));
    assert_eq!(stats.finalized, block(8, 2));
}

#[test]
fn reports_before_the_handshake_are_dropped() {
    let mut a = Aggregator::new();
    let id = a.node_connected(1).unwrap();
    let before = a.node(id).unwrap();
    assert_eq!(a.node_report(id, best(10, 1), 2), vec![]);
    assert_eq!(
        a.node_report(id, Report::StatsUpdate { stats: NodeStats { peers: 3, txcount: 4 } }, 3),
        vec![]
    );
    assert_eq!(
        a.node_report(
            id,
            Report::HardwareUpdate { hardware: NodeHardware { cpu: 1, memory: 2 } },
            4
        ),
        vec![]
    );
    assert_eq!(a.node(id).unwrap(), before);
}

#[test]
fn malformed_report_changes_nothing() {
    let mut a = Aggregator::new();
    let x = chain_key(b"X");
    let id = join(&mut a, x, "A");
    let f = a.feed_connected().unwrap();
    a.feed_subscribe(f, x);
    let before = a.node(id).unwrap();
    assert_eq!(a.node_report(id, Report::Malformed, 99), vec![]);
    assert_eq!(a.node(id).unwrap(), before);
}

#[test]
fn second_handshake_is_ignored() {
    let mut a = Aggregator::new();
    let x = chain_key(b"X");
    let y = chain_key(b"Y");
    let id = join(&mut a, x, "A");
    assert_eq!(a.node_report(id, handshake(y, "other"), 5), vec![]);
    let record = a.node(id).unwrap();
    assert_eq!(record.chain, Some(x));
    assert_eq!(record.details.name, b"A".to_vec());
    assert_eq!(a.members(y), None);
    assert_eq!(a.members(x), Some(vec![id]));
}

#[test]
fn events_for_a_node_that_left_are_ignored() {
    let mut a = Aggregator::new();
    let x = chain_key(b"X");
    let stays = join(&mut a, x, "A");
    let leaves = join(&mut a, x, "B");
    a.node_disconnected(leaves);
    let stats = a.chain_stats(x).unwrap();
    assert_eq!(a.node_report(leaves, best(100, 1), 7), vec![]);
    assert_eq!(a.node_disconnected(leaves), vec![]);
    assert_eq!(a.node_located(leaves, Location { latitude: 1, longitude: 2 }), vec![]);
    assert_eq!(a.chain_stats(x).unwrap(), stats);
    assert_eq!(a.members(x), Some(vec![stays]));
    assert_eq!(a.node(leaves), None);
}

#[test]
fn events_for_an_unknown_feed_are_ignored() {
    let mut a = Aggregator::new();
    let x = chain_key(b"X");
    join(&mut a, x, "A");
    assert_eq!(a.feed_subscribe(17, x), vec![]);
    assert_eq!(a.feed_unsubscribe(17), vec![]);
    a.feed_disconnected(17);
    assert_eq!(a.subscribers(x), Some(vec![]));
    assert_eq!(a.feed_count(), 0);
}

#[test]
fn node_joining_is_announced_with_the_new_count() {
    let mut a = Aggregator::new();
    let x = chain_key(b"X");
    join(&mut a, x, "A");
    let f = a.feed_connected().unwrap();
    a.feed_subscribe(f, x);
    let id = a.node_connected(3).unwrap();
    let out = a.node_report(id, handshake(x, "B"), 4);
    assert_eq!(
        out,
        vec![
            Outbound { feed: f, message: FeedMessage::NodeAdded { node: entry(&a, id) } },
            Outbound {
                feed: f,
                message: FeedMessage::ChainUpdated {
                    stats: ChainStats {
                        node_count: 2,
                        synced: 2,
                        best: block(0, 0),
                        finalized: block(0, 0),
                    },
                },
            },
        ]
    );
    let record = a.node(id).unwrap();
    assert_eq!(record.chain, Some(x));
    assert_eq!(record.details.name, b"B".to_vec());
    assert_eq!(record.details.version, b"1.0".to_vec());
    assert_eq!(record.last_seen, 4);
}

#[test]
fn node_leaving_is_announced_with_the_new_statistics() {
    let mut a = Aggregator::new();
    let x = chain_key(b"X");
    let stays = join(&mut a, x, "A");
    let leaves = join(&mut a, x, "B");
    a.node_report(stays, best(3, 1), 1);
    a.node_report(leaves, best(9, 2), 2);
    let f = a.feed_connected().unwrap();
    a.feed_subscribe(f, x);
    let out = a.node_disconnected(leaves);
    assert_eq!(
        out,
        vec![
            Outbound { feed: f, message: FeedMessage::NodeRemoved { id: leaves } },
            Outbound {
                feed: f,
                message: FeedMessage::ChainUpdated {
                    stats: ChainStats {
                        node_count: 1,
                        synced: 1,
                        best: block(3, 1),
                        finalized: block(0, 0),
                    },
                },
            },
        ]
    );
}

#[test]
fn statistics_and_hardware_updates_reach_subscribers() {
    let mut a = Aggregator::new();
    let x = chain_key(b"X");
    let id = join(&mut a, x, "A");
    let f = a.feed_connected().unwrap();
    let g = a.feed_connected().unwrap();
    a.feed_subscribe(f, x);
    a.feed_subscribe(g, x);
    let out = a.node_report(id, Report::StatsUpdate { stats: NodeStats { peers: 5, txcount: 6 } }, 8);
    assert_eq!(
        out,
        vec![
            Outbound { feed: f, message: FeedMessage::NodeUpdated { node: entry(&a, id) } },
            Outbound { feed: g, message: FeedMessage::NodeUpdated { node: entry(&a, id) } },
        ]
    );
    assert_eq!(a.node(id).unwrap().stats, NodeStats { peers: 5, txcount: 6 });
    assert_eq!(a.node(id).unwrap().last_seen, 8);
    let out = a.node_report(
        id,
        Report::HardwareUpdate { hardware: NodeHardware { cpu: 1250, memory: 1 << 30 } },
        9,
    );
    assert_eq!(out.len(), 2);
    assert_eq!(a.node(id).unwrap().hardware, NodeHardware { cpu: 1250, memory: 1 << 30 });
}

#[test]
fn location_is_attached_when_it_arrives() {
    let mut a = Aggregator::new();
    let x = chain_key(b"X");
    let here = Location { latitude: 52_520_000, longitude: 13_405_000 };
    // before the handshake: attached, nobody to tell
    let early = a.node_connected(0).unwrap();
    assert_eq!(a.node_located(early, here), vec![]);
    assert_eq!(a.node(early).unwrap().location, Some(here));
    a.node_report(early, handshake(x, "A"), 1);
    assert_eq!(a.node(early).unwrap().location, Some(here));
    // after the handshake: attached, subscribers are told
    let late = join(&mut a, x, "B");
    let f = a.feed_connected().unwrap();
    a.feed_subscribe(f, x);
    let out = a.node_located(late, here);
    assert_eq!(
        out,
        vec![Outbound { feed: f, message: FeedMessage::NodeUpdated { node: entry(&a, late) } }]
    );
    assert_eq!(a.node(late).unwrap().location, Some(here));
}

#[test]
fn unsubscribe_and_disconnect_remove_the_feed_from_its_chain() {
    let mut a = Aggregator::new();
    let x = chain_key(b"X");
    join(&mut a, x, "A");
    let f = a.feed_connected().unwrap();
    let g = a.feed_connected().unwrap();
    a.feed_subscribe(f, x);
    a.feed_subscribe(g, x);
    let out = a.feed_unsubscribe(f);
    assert_eq!(out, vec![Outbound { feed: f, message: FeedMessage::ChainRemoved { chain: x } }]);
    assert_eq!(a.subscribers(x), Some(vec![g]));
    assert_eq!(a.feed_unsubscribe(f), vec![]);
    a.feed_disconnected(g);
    assert_eq!(a.subscribers(x), Some(vec![]));
    assert_eq!(a.feed(g), None);
    assert_eq!(a.feed_count(), 1);
}

#[test]
fn chains_are_kept_apart() {
    let mut a = Aggregator::new();
    let x = chain_key(b"X");
    let y = chain_key(b"Y");
    let in_x = join(&mut a, x, "A");
    let in_y = join(&mut a, y, "B");
    a.node_report(in_x, best(10, 1), 1);
    a.node_report(in_y, best(99, 2), 2);
    assert_eq!(a.chain_stats(x).unwrap().best.height, 10);
    assert_eq!(a.chain_stats(y).unwrap().best.height, 99);
    assert_eq!(a.chain_count(), 2);
    a.node_disconnected(in_y);
    assert_eq!(a.chain_count(), 1);
    assert_eq!(a.chain_stats(x).unwrap().best.height, 10);
}

#[test]
fn handle_does_what_the_single_methods_do() {
    let mut by_event = Aggregator::new();
    let mut by_call = Aggregator::new();
    let x = chain_key(b"X");

    let r = by_event.handle(Event::NodeConnected { now: 1 });
    assert_eq!(r.assigned, by_call.node_connected(1));
    assert!(r.outbox.is_empty());
    let node = r.assigned.unwrap();

    let r = by_event.handle(Event::FeedConnected);
    assert_eq!(r.assigned, by_call.feed_connected());
    let feed = r.assigned.unwrap();

    let r = by_event.handle(Event::NodeReport { node, report: handshake(x, "A"), now: 2 });
    assert_eq!(r.assigned, None);
    assert_eq!(r.outbox, by_call.node_report(node, handshake(x, "A"), 2));

    let r = by_event.handle(Event::FeedSubscribe { feed, chain: x });
    assert_eq!(r.outbox, by_call.feed_subscribe(feed, x));
    assert_eq!(r.outbox.len(), 1);

    let r = by_event.handle(Event::NodeReport { node, report: best(5, 5), now: 3 });
    assert_eq!(r.outbox, by_call.node_report(node, best(5, 5), 3));
    assert_eq!(r.outbox.len(), 2);

    let here = Location { latitude: -1, longitude: 1 };
    let r = by_event.handle(Event::NodeLocated { node, location: here });
    assert_eq!(r.outbox, by_call.node_located(node, here));

    let r = by_event.handle(Event::FeedUnsubscribe { feed });
    assert_eq!(r.outbox, by_call.feed_unsubscribe(feed));

    let r = by_event.handle(Event::FeedSubscribe { feed, chain: x });
    assert_eq!(r.outbox, by_call.feed_subscribe(feed, x));

    let r = by_event.handle(Event::NodeDisconnected { node });
    assert_eq!(r.outbox, by_call.node_disconnected(node));
    assert_eq!(r.outbox, vec![Outbound { feed, message: FeedMessage::ChainRemoved { chain: x } }]);

    let r = by_event.handle(Event::FeedDisconnected { feed });
    by_call.feed_disconnected(feed);
    assert!(r.outbox.is_empty());
    assert_eq!(by_event.feed_count(), 0);
    assert_eq!(by_call.feed_count(), 0);
}

#[test]
fn duplicates_are_equal_to_what_they_copy() {
    let mut a = Aggregator::new();
    let x = chain_key(b"X");
    let id = join(&mut a, x, "A");
    let message = FeedMessage::Snapshot {
        chain: x,
        stats: a.chain_stats(x).unwrap(),
        nodes: vec![entry(&a, id)],
    };
    assert_eq!(message.duplicate(), message);
    let record = a.node(id).unwrap();
    assert_eq!(record.duplicate(), record);
    assert!(block(1, 2).same(&block(1, 2)));
    assert!(!block(1, 2).same(&block(1, 3)));
    assert!(!block(1, 2).same(&block(2, 2)));
}

#[test]
fn synced_counts_the_members_at_the_best_height() {
    let mut a = Aggregator::new();
    let x = chain_key(b"X");
    let n0 = join(&mut a, x, "A");
    assert_eq!(a.chain_stats(x).unwrap().synced, 1);
    let n1 = join(&mut a, x, "B");
    let n2 = join(&mut a, x, "C");
    assert_eq!(a.chain_stats(x).unwrap().synced, 3);
    a.node_report(n0, best(10, 1), 1);
    assert_eq!(a.chain_stats(x).unwrap().synced, 1);
    a.node_report(n1, best(10, 2), 2);
    assert_eq!(a.chain_stats(x).unwrap().synced, 2);
    a.node_report(n2, best(5, 3), 3);
    assert_eq!(a.chain_stats(x).unwrap().synced, 2);
    // the same height again: still counted once
    a.node_report(n0, best(10, 4), 4);
    assert_eq!(a.chain_stats(x).unwrap().synced, 2);
    // a finalized block does not count
    a.node_report(n2, finalized(10, 5), 5);
    assert_eq!(a.chain_stats(x).unwrap().synced, 2);
    a.node_report(n1, best(11, 6), 6);
    assert_eq!(a.chain_stats(x).unwrap().synced, 1);
    // the one ahead falls back to where another is
    a.node_report(n1, best(10, 7), 7);
    assert_eq!(a.chain_stats(x).unwrap().best.height, 10);
    assert_eq!(a.chain_stats(x).unwrap().synced, 2);
    // one that is not ahead falls back
    a.node_report(n0, best(9, 8), 8);
    assert_eq!(a.chain_stats(x).unwrap().best, block(10, 7));
    assert_eq!(a.chain_stats(x).unwrap().synced, 1);
    a.node_report(n2, best(10, 9), 9);
    assert_eq!(a.chain_stats(x).unwrap().synced, 2);
    a.node_disconnected(n1);
    assert_eq!(a.chain_stats(x).unwrap().synced, 1);
    assert_eq!(a.chain_stats(x).unwrap().node_count, 2);
    a.node_disconnected(n2);
    assert_eq!(a.chain_stats(x).unwrap().best, block(9, 8));
    assert_eq!(a.chain_stats(x).unwrap().synced, 1);
}

#[test]
fn change_of_the_synced_count_alone_is_announced() {
    let mut a = Aggregator::new();
    let x = chain_key(b"X");
    let n0 = join(&mut a, x, "A");
    let n1 = join(&mut a, x, "B");
    a.node_report(n0, best(10, 1), 1);
    a.node_report(n1, best(10, 1), 2);
    let f = a.feed_connected().unwrap();
    a.feed_subscribe(f, x);
    // the head stays what it is, but one node fewer is at its height
    let out = a.node_report(n0, best(9, 9), 3);
    assert_eq!(
        out,
        vec![
            Outbound { feed: f, message: FeedMessage::NodeUpdated { node: entry(&a, n0) } },
            Outbound {
                feed: f,
                message: FeedMessage::ChainUpdated {
                    stats: ChainStats {
                        node_count: 2,
                        synced: 1,
                        best: block(10, 1),
                        finalized: block(0, 0),
                    },
                },
            },
        ]
    );
}

/// What a dashboard keeps of the chain it follows.
struct Picture {
    chain: Option<u64>,
    stats: Option<ChainStats>,
    nodes: Vec<NodeEntry>,
}

fn redraw(picture: &mut Picture, message: &FeedMessage) {
    match message {
        FeedMessage::Snapshot { chain, stats, nodes } => {
            picture.chain = Some(*chain);
            picture.stats = Some(*stats);
            picture.nodes = nodes.clone();
        },
        FeedMessage::ChainNotFound { .. } | FeedMessage::ChainRemoved { .. } => {
            picture.chain = None;
            picture.stats = None;
            picture.nodes.clear();
        },
        FeedMessage::NodeAdded { node } => picture.nodes.push(node.clone()),
        FeedMessage::NodeUpdated { node } => {
            for known in picture.nodes.iter_mut() {
                if known.id == node.id {
                    *known = node.clone();
                }
            }
        },
        FeedMessage::NodeRemoved { id } => picture.nodes.retain(|known| known.id != *id),
        FeedMessage::ChainUpdated { stats } => picture.stats = Some(*stats),
    }
}

fn check_picture(a: &Aggregator, feed: u64, picture: &Picture) {
    let followed = a.feed(feed).unwrap().subscription;
    assert_eq!(picture.chain, followed);
    match followed {
        Some(chain) => {
            assert_eq!(picture.stats, a.chain_stats(chain));
            let members = a.members(chain).unwrap();
            let truth: Vec<NodeEntry> = members.iter().map(|id| entry(a, *id)).collect();
            assert_eq!(picture.nodes, truth);
        },
        None => {
            assert_eq!(picture.stats, None);
            assert!(picture.nodes.is_empty());
        },
    }
}

#[test]
fn picture_drawn_from_the_messages_is_the_chain() {
    let mut a = Aggregator::new();
    let x = chain_key(b"X");
    let y = chain_key(b"Y");
    let feed = a.handle(Event::FeedConnected).assigned.unwrap();
    let other = a.handle(Event::FeedConnected).assigned.unwrap();
    let here = Location { latitude: 48_137_000, longitude: 11_575_000 };
    let events = vec![
        Event::NodeConnected { now: 1 },
        Event::NodeReport { node: 0, report: handshake(x, "A"), now: 2 },
        Event::FeedSubscribe { feed, chain: y },
        Event::FeedSubscribe { feed, chain: x },
        Event::NodeConnected { now: 3 },
        Event::NodeReport { node: 1, report: handshake(x, "B"), now: 4 },
        Event::NodeReport { node: 1, report: best(10, 1), now: 5 },
        Event::NodeReport { node: 0, report: best(12, 2), now: 6 },
        Event::FeedSubscribe { feed: other, chain: x },
        Event::NodeReport { node: 0, report: finalized(8, 3), now: 7 },
        Event::NodeLocated { node: 1, location: here },
        Event::NodeConnected { now: 8 },
        Event::NodeReport { node: 2, report: handshake(y, "C"), now: 9 },
        Event::NodeReport { node: 2, report: best(99, 4), now: 10 },
        Event::NodeReport {
            node: 1,
            report: Report::StatsUpdate { stats: NodeStats { peers: 7, txcount: 1 } },
            now: 11,
        },
        Event::NodeReport { node: 0, report: best(3, 5), now: 12 },
        Event::NodeReport { node: 1, report: Report::Malformed, now: 13 },
        Event::FeedUnsubscribe { feed: other },
        Event::NodeDisconnected { node: 0 },
        Event::FeedSubscribe { feed, chain: y },
        Event::NodeReport { node: 2, report: best(100, 6), now: 14 },
        Event::FeedSubscribe { feed, chain: x },
        Event::FeedDisconnected { feed: other },
        Event::NodeDisconnected { node: 1 },
        Event::NodeDisconnected { node: 2 },
    ];
    let mut picture = Picture { chain: None, stats: None, nodes: vec![] };
    for event in events {
        let reaction = a.handle(event);
        for Outbound { feed: to, message } in reaction.outbox.iter() {
            if *to == feed {
                redraw(&mut picture, message);
            }
        }
        check_picture(&a, feed, &picture);
    }
    assert_eq!(picture.chain, None);
    assert_eq!(a.chain_count(), 0);
}

#[test]
fn chains_and_members_agree_after_every_event() {
    let mut a = Aggregator::new();
    let keys = [chain_key(b"X"), chain_key(b"Y"), chain_key(b"Z")];
    let mut connected: Vec<u64> = vec![];
    // a fixed, scrambled walk through connects, handshakes, updates and disconnects
    let mut seed: u64 = 0x9e37_79b9_7f4a_7c15;
    for step in 0..400u64 {
        seed = seed.wrapping_mul(6364136223846793005).wrapping_add(1442695040888963407);
        let pick = (seed >> 33) as usize;
        match pick % 5 {
            0 => {
                connected.push(a.node_connected(step).unwrap());
            },
            1 if !connected.is_empty() => {
                let id = connected[pick / 5 % connected.len()];
                a.node_report(id, handshake(keys[pick / 7 % 3], "n"), step);
            },
            2 | 3 if !connected.is_empty() => {
                let id = connected[pick / 5 % connected.len()];
                a.node_report(id, best((pick / 11 % 20) as u64, step as u8), step);
            },
            4 if !connected.is_empty() => {
                let id = connected.remove(pick / 5 % connected.len());
                a.node_disconnected(id);
            },
            _ => {},
        }
        let mut chains_with_members = 0;
        for key in keys {
            let joined: Vec<u64> = connected
                .iter()
                .copied()
                .filter(|id| a.node(*id).unwrap().chain == Some(key))
                .collect();
            match a.members(key) {
                Some(members) => {
                    chains_with_members += 1;
                    assert!(!members.is_empty());
                    let mut sorted = members.clone();
                    sorted.sort();
                    assert_eq!(sorted, joined);
                    let stats = a.chain_stats(key).unwrap();
                    let heights: Vec<u64> =
                        members.iter().map(|id| a.node(*id).unwrap().best.block.height).collect();
                    let highest = *heights.iter().max().unwrap();
                    assert_eq!(stats.best.height, highest);
                    assert_eq!(stats.node_count, members.len());
                    assert_eq!(stats.synced, heights.iter().filter(|h| **h == highest).count());
                },
                None => assert!(joined.is_empty()),
            }
        }
        assert_eq!(a.chain_count(), chains_with_members);
        assert_eq!(a.node_count(), connected.len());
    }
}
