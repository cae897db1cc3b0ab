use telemetry::aggregator::Event;
use telemetry::feed::FeedSession;
use telemetry::message::FeedMessage;
use telemetry::node::{Closure, NodeSession};
use telemetry::types::{NodeStats, Report};
use telemetry::wire::chain_key;

const STATS_FRAME: [u8; 9] = [4, 0, 0, 0, 3, 0, 0, 0, 9];

#[test]
fn node_session_knows_where_to_look_for_its_node() {
    let s = NodeSession::open(4, Some(b"203.0.113.7:4321"), 10, 30);
    assert_eq!(s.node(), 4);
    assert_eq!(s.address(), 0xcb00_7107);
    assert!(!s.is_closed());
    let s = NodeSession::open(5, None, 10, 30);
    assert_eq!(s.address(), 0x7f00_0001);
}

#[test]
fn node_session_forwards_reports() {
    let mut s = NodeSession::open(4, None, 10, 30);
    assert_eq!(
        s.on_frame(&STATS_FRAME, 12),
        Some(Event::NodeReport {
            node: 4,
            report: Report::StatsUpdate { stats: NodeStats { peers: 3, txcount: 9 } },
            now: 12,
        })
    );
}

#[test]
fn node_session_drops_malformed_frames() {
    let mut s = NodeSession::open(4, None, 10, 30);
    assert_eq!(s.on_frame(&[9, 9, 9], 12), None);
    assert_eq!(s.on_frame(&[], 12), None);
    assert!(!s.is_closed());
    // a malformed frame does not count as a sign of life
    assert_eq!(s.on_tick(40), Some(Event::NodeDisconnected { node: 4 }));
}

#[test]
fn node_session_ends_after_silence() {
    let mut s = NodeSession::open(4, None, 10, 30);
    assert_eq!(s.on_tick(39), None);
    assert_eq!(s.on_tick(5), None);
    s.on_frame(&STATS_FRAME, 20);
    assert_eq!(s.on_tick(40), None);
    assert_eq!(s.on_tick(49), None);
    assert_eq!(s.on_tick(50), Some(Event::NodeDisconnected { node: 4 }));
    assert!(s.is_closed());
}

#[test]
fn node_session_disconnects_exactly_once() {
    let mut s = NodeSession::open(4, None, 10, 30);
    assert_eq!(s.on_close(Closure::TransportError), Some(Event::NodeDisconnected { node: 4 }));
    assert_eq!(s.on_close(Closure::PeerClosed), None);
    assert_eq!(s.on_close(Closure::TransportError), None);
    assert_eq!(s.on_tick(1000), None);
    assert_eq!(s.on_frame(&STATS_FRAME, 1001), None);

    let mut s = NodeSession::open(5, None, 10, 30);
    assert_eq!(s.on_tick(100), Some(Event::NodeDisconnected { node: 5 }));
    assert_eq!(s.on_close(Closure::PeerClosed), None);
    assert_eq!(s.on_tick(200), None);

    let mut s = NodeSession::open(6, None, 10, 30);
    assert_eq!(s.on_close(Closure::PeerClosed), Some(Event::NodeDisconnected { node: 6 }));
    assert_eq!(s.on_tick(200), None);
}

#[test]
fn feed_session_passes_commands_on() {
    let s = FeedSession::open(3, 100);
    assert_eq!(s.feed(), 3);
    assert_eq!(
        s.on_frame(b"subscribe:X"),
        Some(Event::FeedSubscribe { feed: 3, chain: chain_key(b"X") })
    );
    assert_eq!(s.on_frame(b"unsubscribe"), Some(Event::FeedUnsubscribe { feed: 3 }));
    assert_eq!(s.on_frame(b"what"), None);
}

#[test]
fn feed_session_writes_frames_in_arrival_order() {
    let mut s = FeedSession::open(3, 100);
    assert_eq!(s.offer(b"one".to_vec()), None);
    assert_eq!(s.offer(b"two!".to_vec()), None);
    assert_eq!(s.buffered(), 7);
    assert_eq!(s.waiting(), 2);
    assert_eq!(s.next_frame(), Some(b"one".to_vec()));
    assert_eq!(s.buffered(), 4);
    assert_eq!(s.offer(b"three".to_vec()), None);
    assert_eq!(s.next_frame(), Some(b"two!".to_vec()));
    assert_eq!(s.next_frame(), Some(b"three".to_vec()));
    assert_eq!(s.next_frame(), None);
    assert_eq!(s.buffered(), 0);
    assert_eq!(s.waiting(), 0);
}

#[test]
fn feed_session_ends_when_its_ceiling_would_be_passed() {
    let mut s = FeedSession::open(3, 10);
    assert_eq!(s.offer(vec![0; 6]), None);
    assert_eq!(s.offer(vec![0; 4]), None);
    assert_eq!(s.buffered(), 10);
    assert_eq!(s.offer(vec![0; 1]), Some(Event::FeedDisconnected { feed: 3 }));
    assert!(s.is_closed());
    assert_eq!(s.buffered(), 0);
    assert_eq!(s.next_frame(), None);
    // nothing more is taken, and the aggregator is not told twice
    assert_eq!(s.offer(vec![0; 1]), None);
    assert_eq!(s.buffered(), 0);
    assert_eq!(s.on_close(), None);
    assert_eq!(s.on_frame(b"subscribe:X"), None);
}

#[test]
fn feed_session_has_room_again_after_writing() {
    let mut s = FeedSession::open(3, 10);
    assert_eq!(s.offer(vec![1; 10]), None);
    assert_eq!(s.next_frame(), Some(vec![1; 10]));
    assert_eq!(s.offer(vec![2; 10]), None);
    assert!(!s.is_closed());
}

#[test]
fn feed_session_refuses_a_frame_larger_than_its_ceiling() {
    let mut s = FeedSession::open(3, 10);
    assert_eq!(s.offer(vec![0; 11]), Some(Event::FeedDisconnected { feed: 3 }));
    assert!(s.is_closed());
}

#[test]
fn feed_session_disconnects_exactly_once() {
    let mut s = FeedSession::open(3, 10);
    s.offer(vec![0; 5]);
    assert_eq!(s.on_close(), Some(Event::FeedDisconnected { feed: 3 }));
    assert_eq!(s.on_close(), None);
    assert_eq!(s.next_frame(), None);
    assert_eq!(s.buffered(), 0);
}

#[test]
fn feed_session_queues_the_frame_of_a_message() {
    let mut s = FeedSession::open(3, 20);
    assert_eq!(s.deliver(&FeedMessage::NodeRemoved { id: 5 }), None);
    assert_eq!(s.buffered(), 9);
    assert_eq!(s.deliver(&FeedMessage::ChainRemoved { chain: 1 }), None);
    assert_eq!(s.buffered(), 18);
    assert_eq!(s.next_frame(), Some(vec![6, 0, 0, 0, 0, 0, 0, 0, 5]));
    assert_eq!(s.next_frame(), Some(vec![3, 0, 0, 0, 0, 0, 0, 0, 1]));
    assert_eq!(s.deliver(&FeedMessage::NodeRemoved { id: 5 }), None);
    assert_eq!(s.deliver(&FeedMessage::NodeRemoved { id: 6 }), None);
    assert_eq!(
        s.deliver(&FeedMessage::NodeRemoved { id: 7 }),
        Some(Event::FeedDisconnected { feed: 3 })
    );
    assert!(s.is_closed());
}
