//! The session of one connected feed.
//!
//! The session turns a feed's commands into events for the aggregator, and
//! holds the frames that wait to be written to the feed. The frames leave in
//! the order they came. They never hold more bytes than the session's
//! ceiling: a frame that would go beyond it ends the session instead, the
//! waiting frames are dropped, and the aggregator is told, once, that the
//! feed is gone.
use crate::aggregator::Event;
use crate::message::FeedMessage;
use crate::model::EventView;
use crate::types::FeedId;
use crate::wire::{command_of, decode_command, encode_message, message_bytes, FeedCommand};
use std::collections::VecDeque;
use vstd::prelude::*;

verus! {

/// The state of a feed's session.
pub struct FeedSession {
    feed: FeedId,
    ceiling: usize,
    buffered: usize,
    pending: VecDeque<Vec<u8>>,
    closed: bool,
}

/// The mathematical value of a [`FeedSession`].
pub struct FeedSessionView {
    /// The id the aggregator gave the feed.
    pub feed: FeedId,
    /// The most bytes that may wait to be written.
    pub ceiling: usize,
    /// The bytes that wait to be written, as the session counts them.
    pub buffered: usize,
    /// The frames that wait to be written, the oldest first.
    pub pending: Seq<Seq<u8>>,
    /// Whether the disconnect event has been produced.
    pub closed: bool,
}

/// The contents of a queue of frames.
pub open spec fn frames(queue: Seq<Vec<u8>>) -> Seq<Seq<u8>> {
    Seq::new(queue.len(), |i: int| queue[i]@)
}

impl View for FeedSession {
    type V = FeedSessionView;

    closed spec fn view(&self) -> FeedSessionView {
        FeedSessionView {
            feed: self.feed,
            ceiling: self.ceiling,
            buffered: self.buffered,
            pending: frames(self.pending@),
            closed: self.closed,
        }
    }
}

/// How many bytes `pending` holds in all.
pub open spec fn total(pending: Seq<Seq<u8>>) -> nat
    decreases pending.len(),
{
    if pending.len() == 0 {
        0
    } else {
        total(pending.drop_last()) + pending.last().len()
    }
}

/// The session counts its bytes right and holds no more than its ceiling.
pub open spec fn bounded(s: FeedSessionView) -> bool {
    s.buffered == total(s.pending) && s.buffered <= s.ceiling
}

/// The session after it has produced the disconnect event: nothing waits.
pub open spec fn ended(s: FeedSessionView) -> FeedSessionView {
    FeedSessionView { closed: true, buffered: 0, pending: Seq::empty(), ..s }
}

/// A frame arrives from the feed. A command is passed on; anything else is
/// dropped, and so is everything once the session has ended.
pub open spec fn command_received(s: FeedSessionView, bytes: Seq<u8>) -> Option<EventView> {
    if s.closed {
        None
    } else {
        match command_of(bytes) {
            FeedCommand::Subscribe { chain } => Some(
                EventView::FeedSubscribe { feed: s.feed, chain },
            ),
            FeedCommand::Unsubscribe => Some(EventView::FeedUnsubscribe { feed: s.feed }),
            FeedCommand::Unknown => None,
        }
    }
}

/// Whether the session has room for `size` more bytes.
pub open spec fn fits(s: FeedSessionView, size: nat) -> bool {
    s.buffered + size <= s.ceiling
}

/// A frame is to be written to the feed. It joins the end of the queue if it
/// fits; if not, the session ends. A session that has ended drops it.
pub open spec fn frame_offered(s: FeedSessionView, frame: Seq<u8>) -> (
    FeedSessionView,
    Option<EventView>,
) {
    if s.closed {
        (s, None)
    } else if fits(s, frame.len()) {
        (
            FeedSessionView {
                buffered: (s.buffered + frame.len()) as usize,
                pending: s.pending.push(frame),
                ..s
            },
            None,
        )
    } else {
        (ended(s), Some(EventView::FeedDisconnected { feed: s.feed }))
    }
}

/// The transport is ready for the next frame: the oldest one leaves the queue.
pub open spec fn frame_taken(s: FeedSessionView) -> (FeedSessionView, Option<Seq<u8>>) {
    if s.pending.len() == 0 {
        (s, None)
    } else {
        (
            FeedSessionView {
                buffered: if s.buffered >= s.pending.first().len() {
                    (s.buffered - s.pending.first().len()) as usize
                } else {
                    0
                },
                pending: s.pending.drop_first(),
                ..s
            },
            Some(s.pending.first()),
        )
    }
}

/// The connection ends. The session ends, unless it has ended already.
pub open spec fn connection_closed(s: FeedSessionView) -> (FeedSessionView, Option<EventView>) {
    if !s.closed {
        (ended(s), Some(EventView::FeedDisconnected { feed: s.feed }))
    } else {
        (s, None)
    }
}

/// The bytes of a queue are those of its first frame and those of the rest.
pub proof fn lemma_total_first(pending: Seq<Seq<u8>>)
    requires
        pending.len() > 0,
    ensures
        total(pending) == pending.first().len() + total(pending.drop_first()),
    decreases pending.len(),
{
    if pending.len() == 1 {
        assert(pending.drop_first() =~= Seq::empty());
        assert(pending.drop_last() =~= Seq::empty());
        assert(total(pending.drop_last()) == 0);
    } else {
        lemma_total_first(pending.drop_last());
        assert(pending.drop_last().drop_first() =~= pending.drop_first().drop_last());
        assert(pending.drop_first().last() == pending.last());
        assert(pending.drop_last().first() == pending.first());
    }
}

/// Whatever is offered to a session or taken from it, and when ever it is
/// closed, it keeps counting its bytes right and holds no more than its ceiling.
pub proof fn lemma_stays_bounded(s: FeedSessionView, frame: Seq<u8>)
    requires
        bounded(s),
    ensures
        bounded(frame_offered(s, frame).0),
        bounded(frame_taken(s).0),
        bounded(connection_closed(s).0),
{
    if !s.closed && fits(s, frame.len()) {
        assert(s.pending.push(frame).drop_last() =~= s.pending);
    }
    if s.pending.len() > 0 {
        lemma_total_first(s.pending);
    }
}

/// Frames leave in the order they came: a frame that is offered to a session
/// with room for it is taken after exactly those that waited before it.
pub proof fn lemma_first_in_first_out(s: FeedSessionView, frame: Seq<u8>)
    requires
        !s.closed,
        fits(s, frame.len()),
    ensures
        frame_offered(s, frame).0.pending == s.pending.push(frame),
        s.pending.len() == 0 ==> frame_taken(frame_offered(s, frame).0).1 == Some(frame),
        s.pending.len() > 0 ==> frame_taken(frame_offered(s, frame).0).1 == frame_taken(s).1
            && frame_taken(frame_offered(s, frame).0).0.pending == frame_taken(s).0.pending.push(
            frame,
        ),
{
    if s.pending.len() > 0 {
        assert(s.pending.push(frame).drop_first() =~= s.pending.drop_first().push(frame));
    }
}

/// What can happen to a feed's session.
pub enum FeedInput {
    /// A frame arrived from the feed.
    Command { bytes: Seq<u8> },
    /// A frame is to be written to the feed.
    Offer { frame: Seq<u8> },
    /// The transport is ready for the next frame.
    Take,
    /// The connection ended.
    Closed,
}

/// What the session makes of an input: its next state and the event for the
/// aggregator, if any.
pub open spec fn session_step(s: FeedSessionView, input: FeedInput) -> (
    FeedSessionView,
    Option<EventView>,
) {
    match input {
        FeedInput::Command { bytes } => (s, command_received(s, bytes)),
        FeedInput::Offer { frame } => frame_offered(s, frame),
        FeedInput::Take => (frame_taken(s).0, None),
        FeedInput::Closed => connection_closed(s),
    }
}

/// The session after `inputs`, in order.
pub open spec fn session_after(s: FeedSessionView, inputs: Seq<FeedInput>) -> FeedSessionView
    decreases inputs.len(),
{
    if inputs.len() == 0 {
        s
    } else {
        session_step(session_after(s, inputs.drop_last()), inputs.last()).0
    }
}

/// How many disconnect events the session produces over `inputs`.
pub open spec fn disconnects(s: FeedSessionView, inputs: Seq<FeedInput>) -> nat
    decreases inputs.len(),
{
    if inputs.len() == 0 {
        0
    } else {
        let earlier = disconnects(s, inputs.drop_last());
        let last = session_step(session_after(s, inputs.drop_last()), inputs.last()).1;
        if last is Some && last.unwrap() is FeedDisconnected {
            earlier + 1
        } else {
            earlier
        }
    }
}

/// Over the life of a session, whatever happens and in whatever order, the
/// disconnect event is produced at most once, and exactly once if the session
/// has ended by then; the session never holds more than its ceiling; and
/// once it has ended it holds nothing.
pub proof fn lemma_session_life(s: FeedSessionView, inputs: Seq<FeedInput>)
    requires
        !s.closed,
        bounded(s),
    ensures
        disconnects(s, inputs) == (if session_after(s, inputs).closed {
            1nat
        } else {
            0nat
        }),
        bounded(session_after(s, inputs)),
        session_after(s, inputs).closed ==> session_after(s, inputs).pending.len() == 0,
        session_after(s, inputs).feed == s.feed,
        session_after(s, inputs).ceiling == s.ceiling,
    decreases inputs.len(),
{
    if inputs.len() > 0 {
        lemma_session_life(s, inputs.drop_last());
        let before = session_after(s, inputs.drop_last());
        match inputs.last() {
            FeedInput::Offer { frame } => {
                lemma_stays_bounded(before, frame);
            },
            _ => {
                lemma_stays_bounded(before, Seq::empty());
            },
        }
    }
}

impl FeedSession {
    /// The session of feed `feed`, which may have up to `ceiling` bytes
    /// waiting to be written.
    pub fn open(feed: FeedId, ceiling: usize) -> (s: FeedSession)
        ensures
            s@ == (FeedSessionView {
                feed,
                ceiling,
                buffered: 0,
                pending: Seq::empty(),
                closed: false,
            }),
            bounded(s@),
    {
        let s = FeedSession { feed, ceiling, buffered: 0, pending: VecDeque::new(), closed: false };
        assert(s@.pending =~= Seq::empty());
        s
    }

    /// The id of the session's feed.
    pub fn feed(&self) -> (id: FeedId)
        ensures
            id == self@.feed,
    {
        self.feed
    }

    /// Whether the session has ended.
    pub fn is_closed(&self) -> (b: bool)
        ensures
            b == self@.closed,
    {
        self.closed
    }

    /// How many bytes wait to be written.
    pub fn buffered(&self) -> (n: usize)
        ensures
            n == self@.buffered,
    {
        self.buffered
    }

    /// How many frames wait to be written.
    pub fn waiting(&self) -> (n: usize)
        ensures
            n == self@.pending.len(),
    {
        self.pending.len()
    }

    /// A frame arrived from the feed. Returns the event to hand to the
    /// aggregator, if any.
    pub fn on_frame(&self, frame: &[u8]) -> (event: Option<Event>)
        ensures
            match event {
                Some(e) => Some(e@) == command_received(self@, frame@),
                None => command_received(self@, frame@) is None,
            },
    {
        if self.closed {
            return None;
        }
        match decode_command(frame) {
            FeedCommand::Subscribe { chain } => Some(
                Event::FeedSubscribe { feed: self.feed, chain },
            ),
            FeedCommand::Unsubscribe => Some(Event::FeedUnsubscribe { feed: self.feed }),
            FeedCommand::Unknown => None,
        }
    }

    /// A frame is to be written to the feed. Returns the event to hand to the
    /// aggregator, if the session ends over it.
    pub fn offer(&mut self, frame: Vec<u8>) -> (event: Option<Event>)
        ensures
            final(self)@ == frame_offered(old(self)@, frame@).0,
            match event {
                Some(e) => Some(e@) == frame_offered(old(self)@, frame@).1,
                None => frame_offered(old(self)@, frame@).1 is None,
            },
            bounded(old(self)@) ==> bounded(final(self)@),
    {
        proof {
            if bounded(old(self)@) {
                lemma_stays_bounded(old(self)@, frame@);
            }
        }
        if self.closed {
            return None;
        }
        let size = frame.len();
        if size <= self.ceiling && self.buffered <= self.ceiling - size {
            self.buffered = self.buffered + size;
            self.pending.push_back(frame);
            assert(self@.pending =~= old(self)@.pending.push(frame@));
            None
        } else {
            self.closed = true;
            self.buffered = 0;
            self.pending.clear();
            assert(self@.pending =~= Seq::empty());
            Some(Event::FeedDisconnected { feed: self.feed })
        }
    }

    /// A message from the aggregator is to be written to the feed: its frame
    /// is offered to the session.
    pub fn deliver(&mut self, message: &FeedMessage) -> (event: Option<Event>)
        ensures
            final(self)@ == frame_offered(old(self)@, message_bytes(message@)).0,
            match event {
                Some(e) => Some(e@) == frame_offered(old(self)@, message_bytes(message@)).1,
                None => frame_offered(old(self)@, message_bytes(message@)).1 is None,
            },
            bounded(old(self)@) ==> bounded(final(self)@),
    {
        self.offer(encode_message(message))
    }

    /// The transport is ready for the next frame. Returns the oldest frame
    /// that waits, if any.
    pub fn next_frame(&mut self) -> (frame: Option<Vec<u8>>)
        ensures
            final(self)@ == frame_taken(old(self)@).0,
            match frame {
                Some(bytes) => Some(bytes@) == frame_taken(old(self)@).1,
                None => frame_taken(old(self)@).1 is None,
            },
            bounded(old(self)@) ==> bounded(final(self)@),
    {
        proof {
            if bounded(old(self)@) {
                lemma_stays_bounded(old(self)@, Seq::empty());
            }
        }
        match self.pending.pop_front() {
            None => None,
            Some(bytes) => {
                self.buffered = if self.buffered >= bytes.len() {
                    self.buffered - bytes.len()
                } else {
                    0
                };
                assert(self@.pending =~= old(self)@.pending.drop_first());
                Some(bytes)
            },
        }
    }

    /// The connection ended. Returns the event to hand to the aggregator, if
    /// any.
    pub fn on_close(&mut self) -> (event: Option<Event>)
        ensures
            final(self)@ == connection_closed(old(self)@).0,
            match event {
                Some(e) => Some(e@) == connection_closed(old(self)@).1,
                None => connection_closed(old(self)@).1 is None,
            },
            bounded(old(self)@) ==> bounded(final(self)@),
    {
        if !self.closed {
            self.closed = true;
            self.buffered = 0;
            self.pending.clear();
            assert(self@.pending =~= Seq::empty());
            Some(Event::FeedDisconnected { feed: self.feed })
        } else {
            None
        }
    }
}

} // verus!
