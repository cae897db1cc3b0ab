//! The picture a feed has of the chain it follows.
//!
//! A feed builds its picture from the messages it is sent: a snapshot draws
//! it afresh, each later message changes one part of it. This module says how,
//! and proves that the picture is always true: after every event, the picture
//! a feed has drawn from all it was sent is exactly the chain as the relay
//! holds it, and blank while the feed follows no chain.
use crate::consistency::{chain_ok, inv, lemma_leave_inv, lemma_roster_complete, lemma_without};
use crate::model::{empty_chain, Step};
use crate::types::{Block, Location, NodeDetailsView};
use crate::message::{broadcast, notify, FeedMessageView, OutboundView};
use crate::model::{
    block_update, feed_subscribe, handshake, leave, node_changed, node_disconnected, react,
    reporting_chain, roster, without, EventView, State,
};
use crate::types::{
    zero_block, BlockKind, ChainKey, ChainStatsView, FeedId, NodeEntryView, NodeId,
    NodeRecordView, ReportView,
};
use vstd::prelude::*;

verus! {

/// What a feed knows: the chain it follows, if any, with its statistics and
/// its nodes.
pub struct Picture {
    pub chain: Option<ChainKey>,
    pub stats: ChainStatsView,
    pub nodes: Seq<NodeEntryView>,
}

/// The picture of a feed that follows no chain.
pub open spec fn blank() -> Picture {
    Picture {
        chain: None,
        stats: ChainStatsView {
            node_count: 0,
            synced: 0,
            best: zero_block(),
            finalized: zero_block(),
        },
        nodes: Seq::empty(),
    }
}

/// `nodes` with the node that has the id of `node` replaced by `node`.
pub open spec fn with_node(nodes: Seq<NodeEntryView>, node: NodeEntryView) -> Seq<NodeEntryView> {
    Seq::new(
        nodes.len(),
        |i: int|
            if nodes[i].id == node.id {
                node
            } else {
                nodes[i]
            },
    )
}

/// `nodes` without the node that has the id `id`.
pub open spec fn without_node(nodes: Seq<NodeEntryView>, id: NodeId) -> Seq<NodeEntryView> {
    nodes.filter(|e: NodeEntryView| e.id != id)
}

/// The picture after one more message.
pub open spec fn redraw(p: Picture, message: FeedMessageView) -> Picture {
    match message {
        FeedMessageView::Snapshot { chain, stats, nodes } => Picture {
            chain: Some(chain),
            stats,
            nodes,
        },
        FeedMessageView::ChainNotFound { chain } => blank(),
        FeedMessageView::ChainRemoved { chain } => blank(),
        FeedMessageView::NodeAdded { node } => Picture { nodes: p.nodes.push(node), ..p },
        FeedMessageView::NodeUpdated { node } => Picture { nodes: with_node(p.nodes, node), ..p },
        FeedMessageView::NodeRemoved { id } => Picture { nodes: without_node(p.nodes, id), ..p },
        FeedMessageView::ChainUpdated { stats } => Picture { stats, ..p },
    }
}

/// The picture after `messages`, in order.
pub open spec fn drawn(p: Picture, messages: Seq<FeedMessageView>) -> Picture
    decreases messages.len(),
{
    if messages.len() == 0 {
        p
    } else {
        redraw(drawn(p, messages.drop_last()), messages.last())
    }
}

/// The messages of `outbox` that are for `feed`, in order.
pub open spec fn inbox(outbox: Seq<OutboundView>, feed: FeedId) -> Seq<FeedMessageView>
    decreases outbox.len(),
{
    if outbox.len() == 0 {
        Seq::empty()
    } else if outbox.last().feed == feed {
        inbox(outbox.drop_last(), feed).push(outbox.last().message)
    } else {
        inbox(outbox.drop_last(), feed)
    }
}

/// The chain that `feed` follows in state `s`, as the relay holds it: the
/// picture the feed ought to have.
pub open spec fn truth(s: State, feed: FeedId) -> Picture {
    if s.feeds.contains_key(feed) && s.feeds[feed].subscription is Some {
        let key = s.feeds[feed].subscription.unwrap();
        Picture {
            chain: Some(key),
            stats: s.chains[key].stats(),
            nodes: roster(s.nodes, s.chains[key].members),
        }
    } else {
        blank()
    }
}

proof fn lemma_inbox_add(a: Seq<OutboundView>, b: Seq<OutboundView>, feed: FeedId)
    ensures
        inbox(a + b, feed) == inbox(a, feed) + inbox(b, feed),
    decreases b.len(),
{
    if b.len() == 0 {
        assert(a + b =~= a);
        assert(inbox(a, feed) + inbox(b, feed) =~= inbox(a, feed));
    } else {
        lemma_inbox_add(a, b.drop_last(), feed);
        assert((a + b).drop_last() =~= a + b.drop_last());
        assert((a + b).last() == b.last());
        if b.last().feed == feed {
            assert(inbox(a, feed) + inbox(b.drop_last(), feed).push(b.last().message) =~= (inbox(
                a,
                feed,
            ) + inbox(b.drop_last(), feed)).push(b.last().message));
        }
    }
}

proof fn lemma_inbox_one(o: OutboundView, feed: FeedId)
    ensures
        inbox(seq![o], feed) == if o.feed == feed {
            seq![o.message]
        } else {
            Seq::empty()
        },
{
    assert(seq![o].drop_last() =~= Seq::empty());
    assert(inbox(Seq::empty(), feed) =~= Seq::empty());
    if o.feed == feed {
        assert(Seq::<FeedMessageView>::empty().push(o.message) =~= seq![o.message]);
    }
}

/// Of a message that is sent to a list of feeds, each of them gets it once,
/// and no other feed gets it.
proof fn lemma_inbox_broadcast(feeds: Seq<FeedId>, message: FeedMessageView, feed: FeedId)
    requires
        feeds.no_duplicates(),
    ensures
        inbox(broadcast(feeds, message), feed) == if feeds.contains(feed) {
            seq![message]
        } else {
            Seq::empty()
        },
    decreases feeds.len(),
{
    let out = broadcast(feeds, message);
    if feeds.len() == 0 {
        assert(out =~= Seq::empty());
    } else {
        let rest = feeds.drop_last();
        assert(out.drop_last() =~= broadcast(rest, message));
        assert(rest.no_duplicates());
        lemma_inbox_broadcast(rest, message, feed);
        if feeds.last() == feed {
            assert(!rest.contains(feed)) by {
                if rest.contains(feed) {
                    let j = choose|j: int| 0 <= j < rest.len() && rest[j] == feed;
                    assert(feeds[j] == feeds[feeds.len() - 1]);
                }
            }
            assert(feeds.contains(feed)) by {
                assert(feeds[feeds.len() - 1] == feed);
            }
            assert(Seq::<FeedMessageView>::empty().push(message) =~= seq![message]);
        } else {
            if rest.contains(feed) {
                let j = choose|j: int| 0 <= j < rest.len() && rest[j] == feed;
                assert(feeds[j] == feed);
            }
            if feeds.contains(feed) {
                let j = choose|j: int| 0 <= j < feeds.len() && feeds[j] == feed;
                assert(rest[j] == feed);
            }
        }
    }
}

/// What a feed draws from the news of a change to a chain: the change and,
/// if the statistics changed, the new statistics, if it follows the chain; and
/// nothing if it does not.
proof fn lemma_drawn_notify(
    p: Picture,
    feeds: Seq<FeedId>,
    change: FeedMessageView,
    before: ChainStatsView,
    after: ChainStatsView,
    feed: FeedId,
)
    requires
        feeds.no_duplicates(),
    ensures
        drawn(p, inbox(notify(feeds, change, before, after), feed)) == if !feeds.contains(feed) {
            p
        } else if before == after {
            redraw(p, change)
        } else {
            redraw(redraw(p, change), FeedMessageView::ChainUpdated { stats: after })
        },
{
    let update = FeedMessageView::ChainUpdated { stats: after };
    lemma_inbox_broadcast(feeds, change, feed);
    lemma_inbox_broadcast(feeds, update, feed);
    lemma_inbox_add(broadcast(feeds, change), broadcast(feeds, update), feed);
    lemma_drawn_nothing(p);
    lemma_drawn_few(p, change, update);
    if feeds.contains(feed) && before != after {
        assert(seq![change] + seq![update] =~= seq![change, update]);
    } else if !feeds.contains(feed) {
        assert(Seq::<FeedMessageView>::empty() + Seq::<FeedMessageView>::empty() =~= Seq::empty());
    }
}

/// Without a message the picture stays as it is.
proof fn lemma_drawn_nothing(p: Picture)
    ensures
        drawn(p, Seq::empty()) == p,
{
}

/// What one message, and what two messages make of a picture.
proof fn lemma_drawn_few(p: Picture, first: FeedMessageView, second: FeedMessageView)
    ensures
        drawn(p, seq![first]) == redraw(p, first),
        drawn(p, seq![first, second]) == redraw(redraw(p, first), second),
{
    lemma_drawn_nothing(p);
    assert(seq![first].drop_last() =~= Seq::empty());
    assert(seq![first, second].drop_last() =~= seq![first]);
}

/// The roster of a chain does not depend on nodes that are not its members.
proof fn lemma_roster_frame(
    a: Map<NodeId, NodeRecordView>,
    b: Map<NodeId, NodeRecordView>,
    members: Seq<NodeId>,
)
    requires
        forall|i: int|
            0 <= i < members.len() ==> (a.contains_key(#[trigger] members[i]) <==> b.contains_key(
                members[i],
            )) && a[members[i]] == b[members[i]],
    ensures
        roster(a, members) == roster(b, members),
    decreases members.len(),
{
    if members.len() > 0 {
        let rest = members.drop_last();
        assert forall|i: int| 0 <= i < rest.len() implies (a.contains_key(#[trigger] rest[i])
            <==> b.contains_key(rest[i])) && a[rest[i]] == b[rest[i]] by {
            assert(rest[i] == members[i]);
        }
        lemma_roster_frame(a, b, rest);
        assert(members[members.len() - 1] == members.last());
    }
}

/// Taking a node out of a list that ends in `x` drops `x` if it has the id and
/// otherwise keeps it at the end.
proof fn lemma_without_node_push(nodes: Seq<NodeEntryView>, x: NodeEntryView, id: NodeId)
    ensures
        without_node(nodes.push(x), id) == if x.id != id {
            without_node(nodes, id).push(x)
        } else {
            without_node(nodes, id)
        },
        without_node(Seq::empty(), id) == Seq::<NodeEntryView>::empty(),
{
    reveal(Seq::filter);
    assert(nodes.push(x).drop_last() =~= nodes);
}

/// When a node leaves, the roster of the remaining members is the old roster
/// without that node.
proof fn lemma_roster_without(nodes: Map<NodeId, NodeRecordView>, members: Seq<NodeId>, id: NodeId)
    requires
        forall|i: int| 0 <= i < members.len() ==> nodes.contains_key(#[trigger] members[i]),
    ensures
        roster(nodes.remove(id), without(members, id)) == without_node(roster(nodes, members), id),
    decreases members.len(),
{
    if members.len() == 0 {
        crate::model::lemma_without_push(Seq::empty(), id, id);
        lemma_without_node_push(Seq::empty(), NodeEntryView { id, record: nodes[id] }, id);
        assert(members =~= Seq::empty());
    } else {
        let rest = members.drop_last();
        let last = members.last();
        assert forall|i: int| 0 <= i < rest.len() implies nodes.contains_key(
            #[trigger] rest[i],
        ) by {
            assert(rest[i] == members[i]);
        }
        lemma_roster_without(nodes, rest, id);
        assert(members =~= rest.push(last));
        crate::model::lemma_without_push(rest, last, id);
        assert(nodes.contains_key(members[members.len() - 1]));
        let entry = NodeEntryView { id: last, record: nodes[last] };
        assert(roster(nodes, members) == roster(nodes, rest).push(entry));
        lemma_without_node_push(roster(nodes, rest), entry, id);
        if last != id {
            let kept = without(rest, id);
            assert(kept.push(last).drop_last() =~= kept);
            assert(nodes.remove(id).contains_key(last));
        }
    }
}

/// When a member's record changes, the roster changes in that member's place
/// and nowhere else.
proof fn lemma_roster_with(
    nodes: Map<NodeId, NodeRecordView>,
    members: Seq<NodeId>,
    id: NodeId,
    record: NodeRecordView,
)
    requires
        forall|i: int| 0 <= i < members.len() ==> nodes.contains_key(#[trigger] members[i]),
    ensures
        roster(nodes.insert(id, record), members) == with_node(
            roster(nodes, members),
            NodeEntryView { id, record },
        ),
{
    let after = nodes.insert(id, record);
    assert forall|i: int| 0 <= i < members.len() implies after.contains_key(
        #[trigger] members[i],
    ) by {
        assert(nodes.contains_key(members[i]));
    }
    lemma_roster_complete(nodes, members);
    lemma_roster_complete(after, members);
    assert(roster(after, members) =~= with_node(
        roster(nodes, members),
        NodeEntryView { id, record },
    ));
}

/// The picture of a feed is not touched by a step that leaves alone the
/// feed's record and the members, heads and member records of its chain.
proof fn lemma_truth_frame(s: State, t: State, feed: FeedId)
    requires
        inv(s),
        s.feeds.contains_key(feed),
        t.feeds.contains_key(feed),
        t.feeds[feed] == s.feeds[feed],
        s.feeds[feed].subscription matches Some(key) ==> {
            &&& t.chains[key].members == s.chains[key].members
            &&& t.chains[key].best == s.chains[key].best
            &&& t.chains[key].finalized == s.chains[key].finalized
            &&& t.chains[key].synced == s.chains[key].synced
            &&& forall|i: int|
                0 <= i < s.chains[key].members.len() ==> t.nodes.contains_key(
                    #[trigger] s.chains[key].members[i],
                ) && t.nodes[s.chains[key].members[i]] == s.nodes[s.chains[key].members[i]]
        },
    ensures
        truth(t, feed) == truth(s, feed),
{
    if s.feeds[feed].subscription is Some {
        let key = s.feeds[feed].subscription.unwrap();
        assert(chain_ok(s, key));
        lemma_roster_frame(s.nodes, t.nodes, s.chains[key].members);
    }
}

/// A feed is among the subscribers of a chain exactly if it follows the chain.
proof fn lemma_follows(s: State, feed: FeedId, key: ChainKey)
    requires
        inv(s),
        s.feeds.contains_key(feed),
        s.chains.contains_key(key),
    ensures
        s.chains[key].subscribers.contains(feed) <==> s.feeds[feed].subscription == Some(key),
        s.chains[key].subscribers.no_duplicates(),
{
    assert(chain_ok(s, key));
    if s.chains[key].subscribers.contains(feed) {
        let subscribers = s.chains[key].subscribers;
        let j = choose|j: int| 0 <= j < subscribers.len() && subscribers[j] == feed;
        assert(s.feeds.contains_key(subscribers[j]));
    }
}

/// A node is among the members of a chain exactly if it has joined the chain.
proof fn lemma_belongs(s: State, id: NodeId, key: ChainKey)
    requires
        inv(s),
        s.chains.contains_key(key),
    ensures
        s.chains[key].members.contains(id) <==> s.nodes.contains_key(id) && s.nodes[id].chain
            == Some(key),
        forall|i: int|
            0 <= i < s.chains[key].members.len() ==> s.nodes.contains_key(
                #[trigger] s.chains[key].members[i],
            ),
{
    assert(chain_ok(s, key));
    if s.chains[key].members.contains(id) {
        let members = s.chains[key].members;
        let j = choose|j: int| 0 <= j < members.len() && members[j] == id;
        assert(s.nodes.contains_key(members[j]));
    }
}

/// A step that changes only the record of one node, and none of what the
/// chains hold, leaves the picture of every feed that does not follow the
/// node's chain as it was.
proof fn lemma_truth_elsewhere(
    s: State,
    t: State,
    feed: FeedId,
    id: NodeId,
    touched: Option<ChainKey>,
)
    requires
        inv(s),
        s.feeds.contains_key(feed),
        t.feeds.contains_key(feed),
        t.feeds[feed] == s.feeds[feed],
        touched is Some ==> s.feeds[feed].subscription != touched,
        !s.nodes.contains_key(id) || s.nodes[id].chain is None || s.nodes[id].chain == touched,
        forall|key: ChainKey|
            Some(key) != touched && #[trigger] s.chains.contains_key(key) ==> t.chains[key]
                == s.chains[key],
        forall|n: NodeId|
            n != id && #[trigger] s.nodes.contains_key(n) ==> t.nodes.contains_key(n) && t.nodes[n]
                == s.nodes[n],
    ensures
        truth(t, feed) == truth(s, feed),
{
    if s.feeds[feed].subscription is Some {
        let key = s.feeds[feed].subscription.unwrap();
        assert(s.chains.contains_key(key));
        lemma_belongs(s, id, key);
        let members = s.chains[key].members;
        assert forall|i: int| 0 <= i < members.len() implies t.nodes.contains_key(
            #[trigger] members[i],
        ) && t.nodes[members[i]] == s.nodes[members[i]] by {
            assert(members.contains(members[i]));
        }
        lemma_truth_frame(s, t, feed);
    }
}

proof fn lemma_picture_handshake(
    s: State,
    id: NodeId,
    chain: ChainKey,
    details: NodeDetailsView,
    now: u64,
    feed: FeedId,
)
    requires
        inv(s),
        s.feeds.contains_key(feed),
    ensures
        drawn(truth(s, feed), inbox(handshake(s, id, chain, details, now).outbox, feed)) == truth(
            handshake(s, id, chain, details, now).state,
            feed,
        ),
{
    let step = handshake(s, id, chain, details, now);
    let t = step.state;
    let p = truth(s, feed);
    lemma_drawn_nothing(p);
    if crate::model::may_join(s, id, chain) {
        let record = t.nodes[id];
        let entry = NodeEntryView { id, record };
        let before = if s.chains.contains_key(chain) {
            s.chains[chain]
        } else {
            empty_chain()
        };
        let after = t.chains[chain];
        if s.chains.contains_key(chain) {
            lemma_follows(s, feed, chain);
            lemma_belongs(s, id, chain);
        }
        lemma_drawn_notify(
            p,
            before.subscribers,
            FeedMessageView::NodeAdded { node: entry },
            before.stats(),
            after.stats(),
            feed,
        );
        if s.feeds[feed].subscription == Some(chain) {
            assert(s.chains.contains_key(chain));
            assert(before.subscribers.contains(feed));
            assert(before.stats() != after.stats());
            let members = before.members;
            assert(members.push(id).drop_last() =~= members);
            assert forall|i: int| 0 <= i < members.len() implies (s.nodes.contains_key(
                #[trigger] members[i],
            ) <==> t.nodes.contains_key(members[i])) && s.nodes[members[i]]
                == t.nodes[members[i]] by {
                assert(members.contains(members[i]));
            }
            lemma_roster_frame(s.nodes, t.nodes, members);
        } else {
            assert(!before.subscribers.contains(feed));
            lemma_truth_elsewhere(s, t, feed, id, Some(chain));
        }
    }
}

proof fn lemma_picture_block_update(
    s: State,
    id: NodeId,
    kind: BlockKind,
    block: Block,
    now: u64,
    feed: FeedId,
)
    requires
        inv(s),
        s.feeds.contains_key(feed),
    ensures
        drawn(truth(s, feed), inbox(block_update(s, id, kind, block, now).outbox, feed)) == truth(
            block_update(s, id, kind, block, now).state,
            feed,
        ),
{
    let step = block_update(s, id, kind, block, now);
    let t = step.state;
    let p = truth(s, feed);
    lemma_drawn_nothing(p);
    if reporting_chain(s, id) is Some && s.clock < u64::MAX {
        let key = reporting_chain(s, id).unwrap();
        let chain = s.chains[key];
        let after = t.chains[key];
        let record = t.nodes[id];
        lemma_follows(s, feed, key);
        lemma_belongs(s, id, key);
        lemma_drawn_notify(
            p,
            chain.subscribers,
            FeedMessageView::NodeUpdated { node: NodeEntryView { id, record } },
            chain.stats(),
            after.stats(),
            feed,
        );
        if s.feeds[feed].subscription == Some(key) {
            lemma_roster_with(s.nodes, chain.members, id, record);
        } else {
            lemma_truth_elsewhere(s, t, feed, id, Some(key));
        }
    }
}

proof fn lemma_picture_node_changed(s: State, id: NodeId, record: NodeRecordView, feed: FeedId)
    requires
        inv(s),
        s.feeds.contains_key(feed),
        reporting_chain(s, id) is Some,
    ensures
        drawn(
            truth(s, feed),
            inbox(node_changed(s, id, reporting_chain(s, id).unwrap(), record).outbox, feed),
        ) == truth(node_changed(s, id, reporting_chain(s, id).unwrap(), record).state, feed),
{
    let key = reporting_chain(s, id).unwrap();
    let step = node_changed(s, id, key, record);
    let t = step.state;
    let p = truth(s, feed);
    let chain = s.chains[key];
    let updated = FeedMessageView::NodeUpdated { node: NodeEntryView { id, record } };
    lemma_follows(s, feed, key);
    lemma_belongs(s, id, key);
    lemma_inbox_broadcast(chain.subscribers, updated, feed);
    lemma_drawn_nothing(p);
    lemma_drawn_few(p, updated, updated);
    if s.feeds[feed].subscription == Some(key) {
        lemma_roster_with(s.nodes, chain.members, id, record);
    } else {
        lemma_truth_elsewhere(s, t, feed, id, Some(key));
    }
}

proof fn lemma_picture_node_located(s: State, id: NodeId, location: Location, feed: FeedId)
    requires
        inv(s),
        s.feeds.contains_key(feed),
    ensures
        drawn(
            truth(s, feed),
            inbox(crate::model::node_located(s, id, location).outbox, feed),
        ) == truth(crate::model::node_located(s, id, location).state, feed),
{
    let p = truth(s, feed);
    lemma_drawn_nothing(p);
    if s.nodes.contains_key(id) {
        let record = NodeRecordView { location: Some(location), ..s.nodes[id] };
        if reporting_chain(s, id) is None {
            let t = crate::model::node_located(s, id, location).state;
            assert(s.nodes[id].chain is None);
            lemma_truth_elsewhere(s, t, feed, id, None);
        } else {
            lemma_picture_node_changed(s, id, record, feed);
        }
    }
}

proof fn lemma_picture_node_disconnected(s: State, id: NodeId, feed: FeedId)
    requires
        inv(s),
        s.feeds.contains_key(feed),
    ensures
        drawn(truth(s, feed), inbox(node_disconnected(s, id).outbox, feed)) == truth(
            node_disconnected(s, id).state,
            feed,
        ),
{
    let step = node_disconnected(s, id);
    let t = step.state;
    let p = truth(s, feed);
    let removed = FeedMessageView::NodeRemoved { id };
    lemma_drawn_nothing(p);
    if s.nodes.contains_key(id) {
        if reporting_chain(s, id) is None {
            assert(s.nodes[id].chain is None);
            lemma_truth_elsewhere(s, t, feed, id, None);
        } else {
            let key = reporting_chain(s, id).unwrap();
            let chain = s.chains[key];
            let members = without(chain.members, id);
            lemma_follows(s, feed, key);
            lemma_belongs(s, id, key);
            lemma_without(chain.members, id);
            if members.len() == 0 {
                let gone = FeedMessageView::ChainRemoved { chain: key };
                lemma_inbox_broadcast(chain.subscribers, gone, feed);
                lemma_drawn_few(p, gone, gone);
                if s.feeds[feed].subscription != Some(key) {
                    assert(!chain.subscribers.contains(feed));
                    lemma_truth_elsewhere(s, t, feed, id, Some(key));
                }
            } else {
                let after = t.chains[key];
                lemma_drawn_notify(
                    p,
                    chain.subscribers,
                    removed,
                    chain.stats(),
                    after.stats(),
                    feed,
                );
                if s.feeds[feed].subscription == Some(key) {
                    assert(members.len() < chain.members.len()) by {
                        lemma_shorter_without(chain.members, id);
                    }
                    assert(chain.stats() != after.stats());
                    lemma_roster_without(s.nodes, chain.members, id);
                } else {
                    lemma_truth_elsewhere(s, t, feed, id, Some(key));
                }
            }
        }
    }
}

/// A list that holds `id` is longer than what is left without it.
proof fn lemma_shorter_without(ids: Seq<u64>, id: u64)
    requires
        ids.contains(id),
    ensures
        without(ids, id).len() < ids.len(),
    decreases ids.len(),
{
    let rest = ids.drop_last();
    let last = ids.last();
    assert(ids =~= rest.push(last));
    crate::model::lemma_without_push(rest, last, id);
    lemma_without(rest, id);
    if last != id {
        let j = choose|j: int| 0 <= j < ids.len() && ids[j] == id;
        assert(rest[j] == id);
        lemma_shorter_without(rest, id);
    }
}

/// Giving up or taking up a subscription does not touch the picture of
/// another feed.
proof fn lemma_picture_of_bystander(s: State, step: Step, other: FeedId, feed: FeedId)
    requires
        inv(s),
        s.feeds.contains_key(feed),
        s.feeds.contains_key(other),
        other != feed,
        step == leave(s, other) || exists|chain: ChainKey| step == feed_subscribe(s, other, chain),
    ensures
        drawn(truth(s, feed), inbox(step.outbox, feed)) == truth(step.state, feed),
        step.state.feeds.contains_key(feed),
{
    let p = truth(s, feed);
    let left = leave(s, other);
    lemma_leave_inv(s, other);
    assert(inbox(left.outbox, feed) =~= Seq::empty()) by {
        if s.feeds[other].subscription is Some {
            lemma_inbox_one(left.outbox[0], feed);
            assert(left.outbox =~= seq![left.outbox[0]]);
        }
    }
    assert(truth(left.state, feed) == p) by {
        if s.feeds[feed].subscription is Some {
            let key = s.feeds[feed].subscription.unwrap();
            assert(s.chains.contains_key(key));
            assert(left.state.chains[key].members == s.chains[key].members);
        }
    }
    if step != left {
        let chain = choose|chain: ChainKey| step == feed_subscribe(s, other, chain);
        let m = left.state;
        let last = step.outbox.last();
        assert(step.outbox =~= left.outbox + seq![last]);
        lemma_inbox_add(left.outbox, seq![last], feed);
        lemma_inbox_one(last, feed);
        assert(inbox(step.outbox, feed) =~= Seq::empty());
        if m.feeds[feed].subscription is Some {
            let key = m.feeds[feed].subscription.unwrap();
            assert(m.chains.contains_key(key));
        }
    }
}

/// What the feed itself draws when it subscribes: the chain as it is, or
/// nothing if the chain does not exist.
proof fn lemma_picture_of_subscriber(s: State, feed: FeedId, chain: ChainKey)
    requires
        inv(s),
        s.feeds.contains_key(feed),
    ensures
        drawn(truth(s, feed), inbox(feed_subscribe(s, feed, chain).outbox, feed)) == truth(
            feed_subscribe(s, feed, chain).state,
            feed,
        ),
        drawn(truth(s, feed), inbox(leave(s, feed).outbox, feed)) == truth(
            leave(s, feed).state,
            feed,
        ),
{
    let p = truth(s, feed);
    let left = leave(s, feed);
    let step = feed_subscribe(s, feed, chain);
    lemma_leave_inv(s, feed);
    let last = step.outbox.last();
    assert(step.outbox =~= left.outbox + seq![last]);
    lemma_inbox_add(left.outbox, seq![last], feed);
    lemma_inbox_one(last, feed);
    lemma_drawn_nothing(p);
    lemma_drawn_few(p, last.message, last.message);
    if s.feeds[feed].subscription is Some {
        let notice = left.outbox[0];
        assert(left.outbox =~= seq![notice]);
        lemma_inbox_one(notice, feed);
        lemma_drawn_few(p, notice.message, last.message);
        assert(seq![notice.message] + seq![last.message] =~= seq![notice.message, last.message]);
    } else {
        assert(left.outbox =~= Seq::empty());
        assert(inbox(left.outbox, feed) =~= Seq::empty());
        assert(Seq::<FeedMessageView>::empty() + seq![last.message] =~= seq![last.message]);
    }
    let m = left.state;
    if m.chains.contains_key(chain) {
        assert(chain_ok(m, chain));
    }
}

/// The picture stays true. Whatever the event, what a connected feed draws
/// from the messages the event sends it, starting from a true picture, is the
/// true picture of the state after the event.
pub proof fn lemma_picture_stays_true(s: State, event: EventView, feed: FeedId)
    requires
        inv(s),
        s.feeds.contains_key(feed),
        react(s, event).state.feeds.contains_key(feed),
    ensures
        drawn(truth(s, feed), inbox(react(s, event).outbox, feed)) == truth(
            react(s, event).state,
            feed,
        ),
{
    let p = truth(s, feed);
    let t = react(s, event).state;
    lemma_drawn_nothing(p);
    match event {
        EventView::NodeConnected { now } => {
            if s.next_node != u64::MAX {
                lemma_truth_elsewhere(s, t, feed, s.next_node, None);
            }
        },
        EventView::NodeReport { node, report, now } => {
            match report {
                ReportView::Handshake { chain, details } => {
                    lemma_picture_handshake(s, node, chain, details, now, feed);
                },
                ReportView::BlockUpdate { kind, block } => {
                    lemma_picture_block_update(s, node, kind, block, now, feed);
                },
                ReportView::StatsUpdate { stats } => {
                    if reporting_chain(s, node) is Some {
                        lemma_picture_node_changed(
                            s,
                            node,
                            NodeRecordView { stats, last_seen: now, ..s.nodes[node] },
                            feed,
                        );
                    }
                },
                ReportView::HardwareUpdate { hardware } => {
                    if reporting_chain(s, node) is Some {
                        lemma_picture_node_changed(
                            s,
                            node,
                            NodeRecordView { hardware, last_seen: now, ..s.nodes[node] },
                            feed,
                        );
                    }
                },
                ReportView::Malformed => {},
            }
        },
        EventView::NodeLocated { node, location } => {
            lemma_picture_node_located(s, node, location, feed);
        },
        EventView::NodeDisconnected { node } => {
            lemma_picture_node_disconnected(s, node, feed);
        },
        EventView::FeedConnected => {
            if s.next_feed != u64::MAX {
                lemma_truth_frame(s, t, feed);
            }
        },
        EventView::FeedSubscribe { feed: who, chain } => {
            if who == feed {
                lemma_picture_of_subscriber(s, feed, chain);
            } else if s.feeds.contains_key(who) {
                lemma_picture_of_bystander(s, feed_subscribe(s, who, chain), who, feed);
            }
        },
        EventView::FeedUnsubscribe { feed: who } => {
            if who == feed {
                lemma_picture_of_subscriber(s, feed, 0);
            } else if s.feeds.contains_key(who) {
                lemma_picture_of_bystander(s, leave(s, who), who, feed);
            }
        },
        EventView::FeedDisconnected { feed: who } => {
            if s.feeds.contains_key(who) {
                lemma_picture_of_bystander(s, leave(s, who), who, feed);
                lemma_leave_inv(s, who);
                lemma_truth_frame(leave(s, who).state, t, feed);
            }
        },
    }
}

/// All that `feed` is sent while the relay, starting in `s`, consumes
/// `events` in order.
pub open spec fn mailbox(s: State, events: Seq<EventView>, feed: FeedId) -> Seq<FeedMessageView>
    decreases events.len(),
{
    if events.len() == 0 {
        Seq::empty()
    } else {
        mailbox(s, events.drop_last(), feed) + inbox(
            react(crate::model::run(s, events.drop_last()), events.last()).outbox,
            feed,
        )
    }
}

proof fn lemma_drawn_add(p: Picture, a: Seq<FeedMessageView>, b: Seq<FeedMessageView>)
    ensures
        drawn(p, a + b) == drawn(drawn(p, a), b),
    decreases b.len(),
{
    if b.len() == 0 {
        assert(a + b =~= a);
    } else {
        lemma_drawn_add(p, a, b.drop_last());
        assert((a + b).drop_last() =~= a + b.drop_last());
        assert((a + b).last() == b.last());
    }
}

/// A feed that draws all it is sent has the true picture at every moment:
/// for as long as it is connected, and whatever happens meanwhile, its picture
/// is the chain it follows, exactly as the relay holds it.
pub proof fn lemma_picture_is_true_throughout(s: State, events: Seq<EventView>, feed: FeedId)
    requires
        inv(s),
        forall|n: int|
            0 <= n <= events.len() ==> #[trigger] crate::model::run(
                s,
                events.take(n),
            ).feeds.contains_key(feed),
    ensures
        drawn(truth(s, feed), mailbox(s, events, feed)) == truth(
            crate::model::run(s, events),
            feed,
        ),
        inv(crate::model::run(s, events)),
    decreases events.len(),
{
    if events.len() == 0 {
        assert(events.take(0) =~= events);
    } else {
        let earlier = events.drop_last();
        assert forall|n: int| 0 <= n <= earlier.len() implies #[trigger] crate::model::run(
            s,
            earlier.take(n),
        ).feeds.contains_key(feed) by {
            assert(earlier.take(n) =~= events.take(n));
        }
        lemma_picture_is_true_throughout(s, earlier, feed);
        let before = crate::model::run(s, earlier);
        assert(events.take(earlier.len() as int) =~= earlier);
        assert(events.take(events.len() as int) =~= events);
        assert(before.feeds.contains_key(feed));
        assert(crate::model::run(s, events).feeds.contains_key(feed));
        crate::consistency::lemma_react_inv(before, events.last());
        lemma_picture_stays_true(before, events.last(), feed);
        lemma_drawn_add(
            truth(s, feed),
            mailbox(s, earlier, feed),
            inbox(react(before, events.last()).outbox, feed),
        );
    }
}

/// Messages go to connected feeds only, and a message about a chain's nodes
/// goes to none but the chain's followers: whatever the event, a feed that
/// is sent anything is connected, and unless the event is its own request
/// it follows a chain.
pub proof fn lemma_only_followers_are_told(s: State, event: EventView, j: int)
    requires
        inv(s),
        0 <= j < react(s, event).outbox.len(),
    ensures
        s.feeds.contains_key(react(s, event).outbox[j].feed),
        (event is FeedSubscribe && event->FeedSubscribe_feed == react(s, event).outbox[j].feed)
            || (event is FeedUnsubscribe && event->FeedUnsubscribe_feed == react(
            s,
            event,
        ).outbox[j].feed) || s.feeds[react(s, event).outbox[j].feed].subscription is Some,
{
    let out = react(s, event).outbox;
    match event {
        EventView::NodeReport { node, report, now } => {
            if reporting_chain(s, node) is Some {
                let key = reporting_chain(s, node).unwrap();
                let subscribers = s.chains[key].subscribers;
                assert(chain_ok(s, key));
                match report {
                    ReportView::BlockUpdate { kind, block } => {
                        if s.clock < u64::MAX {
                            let i = if j < subscribers.len() {
                                j
                            } else {
                                j - subscribers.len()
                            };
                            assert(s.feeds.contains_key(subscribers[i]));
                        }
                    },
                    ReportView::StatsUpdate { stats } => {
                        assert(s.feeds.contains_key(subscribers[j]));
                    },
                    ReportView::HardwareUpdate { hardware } => {
                        assert(s.feeds.contains_key(subscribers[j]));
                    },
                    _ => {},
                }
            }
            match report {
                ReportView::Handshake { chain, details } => {
                    if s.chains.contains_key(chain) {
                        let subscribers = s.chains[chain].subscribers;
                        assert(chain_ok(s, chain));
                        let i = if j < subscribers.len() {
                            j
                        } else {
                            j - subscribers.len()
                        };
                        assert(s.feeds.contains_key(subscribers[i]));
                    }
                },
                _ => {},
            }
        },
        EventView::NodeLocated { node, location } => {
            if reporting_chain(s, node) is Some {
                let key = reporting_chain(s, node).unwrap();
                assert(chain_ok(s, key));
                assert(s.feeds.contains_key(s.chains[key].subscribers[j]));
            }
        },
        EventView::NodeDisconnected { node } => {
            if reporting_chain(s, node) is Some {
                let key = reporting_chain(s, node).unwrap();
                let subscribers = s.chains[key].subscribers;
                assert(chain_ok(s, key));
                let i = if j < subscribers.len() {
                    j
                } else {
                    j - subscribers.len()
                };
                assert(s.feeds.contains_key(subscribers[i]));
            }
        },
        _ => {},
    }
}

} // verus!
