//! The session of one connected node.
//!
//! The session turns what happens on a node's connection into events for the
//! aggregator: a frame that holds a report becomes a report event, and the end
//! of the connection becomes a disconnect event. However the connection ends,
//! and however often the session is told so, the disconnect event is produced
//! exactly once, and nothing is produced after it.
use crate::address::{key_of, locate_key, peer_of};
use crate::aggregator::Event;
use crate::locator::Address;
use crate::model::EventView;
use crate::types::NodeId;
use crate::wire::{decode_report, report_of};
use crate::types::Report;
use vstd::prelude::*;

verus! {

/// Why a connection ended.
#[derive(Clone, Copy, Debug, PartialEq, Eq)]
pub enum Closure {
    /// The transport failed.
    TransportError,
    /// The peer closed the connection.
    PeerClosed,
}

/// The state of a node's session.
pub struct NodeSession {
    node: NodeId,
    address: Address,
    timeout: u64,
    heard: u64,
    closed: bool,
}

/// The mathematical value of a [`NodeSession`].
pub struct NodeSessionView {
    /// The id the aggregator gave the node.
    pub node: NodeId,
    /// The key under which the node's location is cached.
    pub address: Address,
    /// How long the node may stay silent.
    pub timeout: u64,
    /// When the last report arrived, or the session began.
    pub heard: u64,
    /// Whether the disconnect event has been produced.
    pub closed: bool,
}

impl View for NodeSession {
    type V = NodeSessionView;

    closed spec fn view(&self) -> NodeSessionView {
        NodeSessionView {
            node: self.node,
            address: self.address,
            timeout: self.timeout,
            heard: self.heard,
            closed: self.closed,
        }
    }
}

/// What can happen on a node's connection.
pub enum NodeInput {
    /// A frame arrived at time `now`.
    Frame { bytes: Seq<u8>, now: u64 },
    /// The clock reached `now`.
    Tick { now: u64 },
    /// The connection ended.
    Closed { cause: Closure },
}

/// The session after it has produced the disconnect event.
pub open spec fn ended(s: NodeSessionView) -> NodeSessionView {
    NodeSessionView { closed: true, ..s }
}

/// Whether the node has been silent for too long at time `now`.
pub open spec fn expired(s: NodeSessionView, now: u64) -> bool {
    now >= s.heard && now - s.heard >= s.timeout
}

/// A frame arrives at time `now`. If it holds a report, the report is passed
/// on and the silence ends; a malformed frame is dropped. A session that has
/// ended passes nothing on.
pub open spec fn frame_received(s: NodeSessionView, bytes: Seq<u8>, now: u64) -> (
    NodeSessionView,
    Option<EventView>,
) {
    if s.closed || report_of(bytes) is Malformed {
        (s, None)
    } else {
        (
            NodeSessionView { heard: now, ..s },
            Some(EventView::NodeReport { node: s.node, report: report_of(bytes), now }),
        )
    }
}

/// The clock reaches `now`. A session whose node has been silent for too long
/// ends.
pub open spec fn clock_advanced(s: NodeSessionView, now: u64) -> (
    NodeSessionView,
    Option<EventView>,
) {
    if !s.closed && expired(s, now) {
        (ended(s), Some(EventView::NodeDisconnected { node: s.node }))
    } else {
        (s, None)
    }
}

/// The connection ends, for whatever cause. The session ends, unless it has
/// ended already.
pub open spec fn connection_closed(s: NodeSessionView) -> (NodeSessionView, Option<EventView>) {
    if !s.closed {
        (ended(s), Some(EventView::NodeDisconnected { node: s.node }))
    } else {
        (s, None)
    }
}

/// What the session makes of an input.
pub open spec fn session_step(s: NodeSessionView, input: NodeInput) -> (
    NodeSessionView,
    Option<EventView>,
) {
    match input {
        NodeInput::Frame { bytes, now } => frame_received(s, bytes, now),
        NodeInput::Tick { now } => clock_advanced(s, now),
        NodeInput::Closed { cause } => connection_closed(s),
    }
}

/// The session after `inputs`, in order.
pub open spec fn session_after(s: NodeSessionView, inputs: Seq<NodeInput>) -> NodeSessionView
    decreases inputs.len(),
{
    if inputs.len() == 0 {
        s
    } else {
        session_step(session_after(s, inputs.drop_last()), inputs.last()).0
    }
}

/// How many disconnect events the session produces over `inputs`.
pub open spec fn disconnects(s: NodeSessionView, inputs: Seq<NodeInput>) -> nat
    decreases inputs.len(),
{
    if inputs.len() == 0 {
        0
    } else {
        let earlier = disconnects(s, inputs.drop_last());
        let last = session_step(session_after(s, inputs.drop_last()), inputs.last()).1;
        if last is Some && last.unwrap() is NodeDisconnected {
            earlier + 1
        } else {
            earlier
        }
    }
}

/// Whether the connection ends somewhere in `inputs`.
pub open spec fn closes(inputs: Seq<NodeInput>) -> bool {
    exists|i: int| 0 <= i < inputs.len() && #[trigger] inputs[i] is Closed
}

/// Over the life of a session, whatever happens and in whatever order, the
/// disconnect event is produced at most once; and exactly once if the session
/// has ended by then, which it has as soon as the connection ends.
pub proof fn lemma_disconnects_once(s: NodeSessionView, inputs: Seq<NodeInput>)
    requires
        !s.closed,
    ensures
        disconnects(s, inputs) == (if session_after(s, inputs).closed {
            1nat
        } else {
            0nat
        }),
        closes(inputs) ==> session_after(s, inputs).closed,
        session_after(s, inputs).node == s.node,
    decreases inputs.len(),
{
    if inputs.len() > 0 {
        let earlier = inputs.drop_last();
        lemma_disconnects_once(s, earlier);
        if closes(inputs) {
            let i = choose|i: int| 0 <= i < inputs.len() && #[trigger] inputs[i] is Closed;
            if i < earlier.len() {
                assert(earlier[i] is Closed);
            }
        }
    }
}

/// Once a session has ended it produces nothing, whatever happens.
pub proof fn lemma_silent_after_end(s: NodeSessionView, input: NodeInput)
    requires
        s.closed,
    ensures
        session_step(s, input).1 is None,
        session_step(s, input).0 == s,
{
}

impl NodeSession {
    /// The session of node `node`, whose connection has the source address
    /// `remote` and began at time `now`. The node may stay silent for
    /// `timeout` units of time.
    pub fn open(node: NodeId, remote: Option<&[u8]>, now: u64, timeout: u64) -> (s: NodeSession)
        ensures
            s@ == (NodeSessionView {
                node,
                address: key_of(
                    peer_of(
                        match remote {
                            Some(text) => Some(text@),
                            None => None,
                        },
                    ),
                ),
                timeout,
                heard: now,
                closed: false,
            }),
    {
        NodeSession { node, address: locate_key(remote), timeout, heard: now, closed: false }
    }

    /// The id of the session's node.
    pub fn node(&self) -> (id: NodeId)
        ensures
            id == self@.node,
    {
        self.node
    }

    /// The key under which to ask for the node's location.
    pub fn address(&self) -> (a: Address)
        ensures
            a == self@.address,
    {
        self.address
    }

    /// Whether the session has ended.
    pub fn is_closed(&self) -> (b: bool)
        ensures
            b == self@.closed,
    {
        self.closed
    }

    /// A frame arrived at time `now`. Returns the event to hand to the
    /// aggregator, if any.
    pub fn on_frame(&mut self, frame: &[u8], now: u64) -> (event: Option<Event>)
        ensures
            final(self)@ == frame_received(old(self)@, frame@, now).0,
            match event {
                Some(e) => Some(e@) == frame_received(old(self)@, frame@, now).1,
                None => frame_received(old(self)@, frame@, now).1 is None,
            },
    {
        if self.closed {
            return None;
        }
        let report = decode_report(frame);
        match report {
            Report::Malformed => None,
            _ => {
                self.heard = now;
                Some(Event::NodeReport { node: self.node, report, now })
            },
        }
    }

    /// The clock reached `now`. Returns the event to hand to the aggregator,
    /// if any.
    pub fn on_tick(&mut self, now: u64) -> (event: Option<Event>)
        ensures
            final(self)@ == clock_advanced(old(self)@, now).0,
            match event {
                Some(e) => Some(e@) == clock_advanced(old(self)@, now).1,
                None => clock_advanced(old(self)@, now).1 is None,
            },
    {
        if !self.closed && now >= self.heard && now - self.heard >= self.timeout {
            self.closed = true;
            Some(Event::NodeDisconnected { node: self.node })
        } else {
            None
        }
    }

    /// The connection ended. Returns the event to hand to the aggregator, if
    /// any.
    pub fn on_close(&mut self, cause: Closure) -> (event: Option<Event>)
        ensures
            final(self)@ == connection_closed(old(self)@).0,
            match event {
                Some(e) => Some(e@) == connection_closed(old(self)@).1,
                None => connection_closed(old(self)@).1 is None,
            },
    {
        if !self.closed {
            self.closed = true;
            Some(Event::NodeDisconnected { node: self.node })
        } else {
            None
        }
    }
}

} // verus!
