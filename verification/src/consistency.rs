//! What holds of every state the relay can reach, with the proofs.
//!
//! [`inv`] is established by the initial state and kept by every event. From
//! it follow the facts that users of the relay can count on: a chain exists
//! exactly while it has a member, a chain's heads are the highest heads among
//! its members, and a subscription is answered by one complete snapshot.
use crate::message::FeedMessageView;
use crate::model::{
    block_update, chain_to_join, count_at, feed_connected, feed_disconnected, feed_subscribe,
    feed_unsubscribe, handshake, init, leave, may_join, max_tip, node_connected,
    node_disconnected, node_located, node_report, react, recount, reporting_chain, roster, run,
    without, EventView, State,
};
use crate::types::{
    tip_le, Block, BlockKind, ChainKey, FeedId, Location, NodeDetailsView, NodeEntryView, NodeId,
    NodeRecordView, ReportView, Tip,
};
use vstd::prelude::*;

verus! {

/// `head` is the greatest head of the given kind among `members`: one of them
/// has it, and none has a greater one.
pub open spec fn is_highest(
    nodes: Map<NodeId, NodeRecordView>,
    members: Seq<NodeId>,
    kind: BlockKind,
    head: Tip,
) -> bool {
    &&& exists|i: int| 0 <= i < members.len() && nodes[#[trigger] members[i]].tip(kind) == head
    &&& forall|i: int|
        0 <= i < members.len() ==> tip_le(nodes[#[trigger] members[i]].tip(kind), head)
}

/// The chain `key` of `s` is in order: it has members, each a node of that
/// chain and none listed twice; its subscribers are feeds that follow it, none
/// listed twice; its heads are the greatest among its members; and it knows
/// how many of its members are at its best height.
pub open spec fn chain_ok(s: State, key: ChainKey) -> bool {
    let c = s.chains[key];
    &&& 0 < c.members.len() <= usize::MAX
    &&& c.synced == count_at(s.nodes, c.members, c.best.block.height)
    &&& c.members.no_duplicates()
    &&& forall|i: int|
        0 <= i < c.members.len() ==> s.nodes.contains_key(#[trigger] c.members[i])
            && s.nodes[c.members[i]].chain == Some(key)
    &&& c.subscribers.no_duplicates()
    &&& forall|i: int|
        0 <= i < c.subscribers.len() ==> s.feeds.contains_key(#[trigger] c.subscribers[i])
            && s.feeds[c.subscribers[i]].subscription == Some(key)
    &&& is_highest(s.nodes, c.members, BlockKind::Best, c.best)
    &&& is_highest(s.nodes, c.members, BlockKind::Finalized, c.finalized)
}

/// Every node has an id that was handed out, heads no later than the clock,
/// and, once it has a chain, a place among that chain's members.
pub open spec fn nodes_ok(s: State) -> bool {
    forall|id: NodeId| #[trigger]
        s.nodes.contains_key(id) ==> {
            &&& id < s.next_node
            &&& s.nodes[id].best.stamp <= s.clock
            &&& s.nodes[id].finalized.stamp <= s.clock
            &&& (s.nodes[id].chain matches Some(key) ==> s.chains.contains_key(key)
                && s.chains[key].members.contains(id))
        }
}

/// Every feed has an id that was handed out and, if it has a subscription, a
/// place among that chain's subscribers.
pub open spec fn feeds_ok(s: State) -> bool {
    forall|f: FeedId| #[trigger]
        s.feeds.contains_key(f) ==> {
            &&& f < s.next_feed
            &&& (s.feeds[f].subscription matches Some(key) ==> s.chains.contains_key(key)
                && s.chains[key].subscribers.contains(f))
        }
}

/// Every chain is in order.
pub open spec fn chains_ok(s: State) -> bool {
    forall|key: ChainKey| #[trigger] s.chains.contains_key(key) ==> chain_ok(s, key)
}

/// The invariant of the relay.
pub open spec fn inv(s: State) -> bool {
    &&& nodes_ok(s)
    &&& feeds_ok(s)
    &&& chains_ok(s)
}

proof fn lemma_push_contains(ids: Seq<u64>, x: u64)
    ensures
        ids.push(x).contains(x),
        forall|y: u64| ids.contains(y) ==> ids.push(x).contains(y),
        forall|y: u64| ids.push(x).contains(y) ==> ids.contains(y) || y == x,
{
    assert(ids.push(x)[ids.len() as int] == x);
    assert forall|y: u64| ids.contains(y) implies ids.push(x).contains(y) by {
        let j = choose|j: int| 0 <= j < ids.len() && ids[j] == y;
        assert(ids.push(x)[j] == y);
    }
    assert forall|y: u64| ids.push(x).contains(y) implies ids.contains(y) || y == x by {
        let j = choose|j: int| 0 <= j < ids.push(x).len() && ids.push(x)[j] == y;
        if j < ids.len() {
            assert(ids[j] == y);
        }
    }
}

/// What is left after taking `id` out of `ids`: the other elements, each as
/// often as before.
pub proof fn lemma_without(ids: Seq<u64>, id: u64)
    ensures
        forall|x: u64| without(ids, id).contains(x) <==> ids.contains(x) && x != id,
        ids.no_duplicates() ==> without(ids, id).no_duplicates(),
        without(ids, id).len() <= ids.len(),
    decreases ids.len(),
{
    reveal(Seq::filter);
    if ids.len() == 0 {
        assert forall|x: u64| without(ids, id).contains(x) <==> ids.contains(x) && x != id by {}
    } else {
        let rest = ids.drop_last();
        let last = ids.last();
        lemma_without(rest, id);
        assert(ids =~= rest.push(last));
        lemma_push_contains(rest, last);
        let kept = without(rest, id);
        if last != id {
            assert(without(ids, id) == kept.push(last));
            lemma_push_contains(kept, last);
            assert forall|x: u64| without(ids, id).contains(x) <==> ids.contains(x) && x
                != id by {
                if without(ids, id).contains(x) {
                    assert(kept.contains(x) || x == last);
                    assert(rest.contains(x) || x == last);
                    assert(ids.contains(x));
                }
                if ids.contains(x) && x != id {
                    assert(rest.contains(x) || x == last);
                    assert(kept.contains(x) || x == last);
                }
            }
            if ids.no_duplicates() {
                assert(rest.no_duplicates()) by {
                    assert forall|i: int, j: int|
                        0 <= i < rest.len() && 0 <= j < rest.len() && i != j implies rest[i]
                        != rest[j] by {
                        assert(ids[i] != ids[j]);
                    }
                }
                assert(!rest.contains(last)) by {
                    if rest.contains(last) {
                        let j = choose|j: int| 0 <= j < rest.len() && rest[j] == last;
                        assert(ids[j] == ids[ids.len() - 1]);
                    }
                }
                assert(!kept.contains(last));
                assert forall|i: int, j: int|
                    0 <= i < kept.push(last).len() && 0 <= j < kept.push(last).len() && i
                        != j implies kept.push(last)[i] != kept.push(last)[j] by {
                    if i < kept.len() && j < kept.len() {
                        assert(kept[i] != kept[j]);
                    } else if i < kept.len() {
                        assert(kept.contains(kept[i]));
                    } else if j < kept.len() {
                        assert(kept.contains(kept[j]));
                    }
                }
            }
        } else {
            assert(without(ids, id) == kept);
            assert forall|x: u64| without(ids, id).contains(x) <==> ids.contains(x) && x
                != id by {
                if kept.contains(x) {
                    assert(rest.contains(x));
                    assert(ids.contains(x));
                }
                if ids.contains(x) && x != id {
                    assert(rest.contains(x) || x == last);
                }
            }
            if ids.no_duplicates() {
                assert(rest.no_duplicates()) by {
                    assert forall|i: int, j: int|
                        0 <= i < rest.len() && 0 <= j < rest.len() && i != j implies rest[i]
                        != rest[j] by {
                        assert(ids[i] != ids[j]);
                    }
                }
            }
        }
    }
}

/// Any two heads compare, and the order is transitive.
proof fn lemma_tip_order(a: Tip, b: Tip, c: Tip)
    ensures
        tip_le(a, b) || tip_le(b, a),
        tip_le(a, b) && tip_le(b, c) ==> tip_le(a, c),
        tip_le(a, a),
{
}

/// Looking through the members of a chain finds their greatest head.
pub proof fn lemma_max_tip_is_highest(
    nodes: Map<NodeId, NodeRecordView>,
    members: Seq<NodeId>,
    kind: BlockKind,
)
    requires
        members.len() > 0,
        forall|i: int| 0 <= i < members.len() ==> nodes.contains_key(#[trigger] members[i]),
    ensures
        is_highest(nodes, members, kind, max_tip(nodes, members, kind)),
    decreases members.len(),
{
    let rest = members.drop_last();
    let last = members.last();
    let head = max_tip(nodes, members, kind);
    assert(nodes.contains_key(members[members.len() - 1]));
    if rest.len() == 0 {
        assert(max_tip(nodes, rest, kind) == crate::types::zero_tip());
        assert(head == nodes[last].tip(kind));
        assert(nodes[members[0]].tip(kind) == head);
        assert forall|i: int| 0 <= i < members.len() implies tip_le(
            nodes[#[trigger] members[i]].tip(kind),
            head,
        ) by {
            assert(i == 0);
        }
    } else {
        assert forall|i: int| 0 <= i < rest.len() implies nodes.contains_key(
            #[trigger] rest[i],
        ) by {
            assert(rest[i] == members[i]);
        }
        lemma_max_tip_is_highest(nodes, rest, kind);
        let before = max_tip(nodes, rest, kind);
        let w = choose|i: int| 0 <= i < rest.len() && nodes[#[trigger] rest[i]].tip(kind) == before;
        assert(rest[w] == members[w]);
        if tip_le(before, nodes[last].tip(kind)) {
            assert(nodes[members[members.len() - 1]].tip(kind) == head);
        } else {
            assert(nodes[members[w]].tip(kind) == head);
        }
        assert forall|i: int| 0 <= i < members.len() implies tip_le(
            nodes[#[trigger] members[i]].tip(kind),
            head,
        ) by {
            if i < rest.len() {
                assert(rest[i] == members[i]);
                lemma_tip_order(nodes[rest[i]].tip(kind), before, head);
            }
            lemma_tip_order(before, nodes[last].tip(kind), head);
        }
    }
}

/// A chain that is in order stays in order when nothing it rests on changes:
/// the chain itself, and the chain, heads and presence of its members and the
/// subscriptions of its subscribers.
proof fn lemma_chain_frame(s: State, t: State, key: ChainKey)
    requires
        chain_ok(s, key),
        t.chains[key] == s.chains[key],
        forall|i: int|
            0 <= i < s.chains[key].members.len() ==> {
                let m = #[trigger] s.chains[key].members[i];
                &&& t.nodes.contains_key(m)
                &&& t.nodes[m].chain == s.nodes[m].chain
                &&& t.nodes[m].best == s.nodes[m].best
                &&& t.nodes[m].finalized == s.nodes[m].finalized
            },
        forall|i: int|
            0 <= i < s.chains[key].subscribers.len() ==> {
                let f = #[trigger] s.chains[key].subscribers[i];
                &&& t.feeds.contains_key(f)
                &&& t.feeds[f] == s.feeds[f]
            },
    ensures
        chain_ok(t, key),
{
    let c = s.chains[key];
    lemma_highest_frame(s.nodes, t.nodes, c.members, BlockKind::Best, c.best);
    lemma_highest_frame(s.nodes, t.nodes, c.members, BlockKind::Finalized, c.finalized);
    assert forall|i: int| 0 <= i < c.members.len() implies s.nodes.contains_key(
        #[trigger] c.members[i],
    ) by {}
    lemma_count_frame(s.nodes, t.nodes, c.members, c.best.block.height);
}

/// No more members are counted than there are.
pub proof fn lemma_count_bound(
    nodes: Map<NodeId, NodeRecordView>,
    members: Seq<NodeId>,
    height: u64,
)
    ensures
        count_at(nodes, members, height) <= members.len(),
    decreases members.len(),
{
    if members.len() > 0 {
        lemma_count_bound(nodes, members.drop_last(), height);
    }
}

/// The count depends on nothing but the presence and the best height of the
/// members.
proof fn lemma_count_frame(
    a: Map<NodeId, NodeRecordView>,
    b: Map<NodeId, NodeRecordView>,
    members: Seq<NodeId>,
    height: u64,
)
    requires
        forall|i: int|
            0 <= i < members.len() ==> (a.contains_key(#[trigger] members[i]) <==> b.contains_key(
                members[i],
            )) && a[members[i]].best.block.height == b[members[i]].best.block.height,
    ensures
        count_at(a, members, height) == count_at(b, members, height),
    decreases members.len(),
{
    if members.len() > 0 {
        let rest = members.drop_last();
        assert forall|i: int| 0 <= i < rest.len() implies (a.contains_key(#[trigger] rest[i])
            <==> b.contains_key(rest[i])) && a[rest[i]].best.block.height
            == b[rest[i]].best.block.height by {
            assert(rest[i] == members[i]);
        }
        lemma_count_frame(a, b, rest, height);
        assert(members[members.len() - 1] == members.last());
    }
}

/// Where no member is at a height, the count for it is zero.
proof fn lemma_count_none(nodes: Map<NodeId, NodeRecordView>, members: Seq<NodeId>, height: u64)
    requires
        forall|i: int|
            0 <= i < members.len() ==> !(nodes.contains_key(#[trigger] members[i])
                && nodes[members[i]].best.block.height == height),
    ensures
        count_at(nodes, members, height) == 0,
    decreases members.len(),
{
    if members.len() > 0 {
        let rest = members.drop_last();
        assert forall|i: int| 0 <= i < rest.len() implies !(nodes.contains_key(
            #[trigger] rest[i],
        ) && nodes[rest[i]].best.block.height == height) by {
            assert(rest[i] == members[i]);
        }
        lemma_count_none(nodes, rest, height);
        assert(members[members.len() - 1] == members.last());
    }
}

/// When the record of one member changes, the count changes by that member
/// alone: it goes down by one if the member was at the height and is not any
/// more, up by one if it was not and now is, and stays otherwise.
proof fn lemma_count_insert(
    nodes: Map<NodeId, NodeRecordView>,
    members: Seq<NodeId>,
    id: NodeId,
    record: NodeRecordView,
    height: u64,
)
    requires
        members.no_duplicates(),
        members.contains(id),
        nodes.contains_key(id),
    ensures
        count_at(nodes.insert(id, record), members, height) + (if nodes[id].best.block.height
            == height {
            1nat
        } else {
            0nat
        }) == count_at(nodes, members, height) + (if record.best.block.height == height {
            1nat
        } else {
            0nat
        }),
    decreases members.len(),
{
    let after = nodes.insert(id, record);
    let rest = members.drop_last();
    let last = members.last();
    assert(rest.no_duplicates());
    if last == id {
        assert forall|i: int| 0 <= i < rest.len() implies (nodes.contains_key(#[trigger] rest[i])
            <==> after.contains_key(rest[i])) && nodes[rest[i]].best.block.height
            == after[rest[i]].best.block.height by {
            assert(members[i] != members[members.len() - 1]);
        }
        lemma_count_frame(nodes, after, rest, height);
    } else {
        let j = choose|j: int| 0 <= j < members.len() && members[j] == id;
        assert(rest[j] == id);
        lemma_count_insert(nodes, rest, id, record, height);
    }
}

/// Where one member alone is at a height, the count for it is one.
proof fn lemma_count_one(
    nodes: Map<NodeId, NodeRecordView>,
    members: Seq<NodeId>,
    id: NodeId,
    height: u64,
)
    requires
        members.no_duplicates(),
        members.contains(id),
        nodes.contains_key(id),
        nodes[id].best.block.height == height,
        forall|i: int|
            0 <= i < members.len() && #[trigger] members[i] != id ==> !(nodes.contains_key(
                members[i],
            ) && nodes[members[i]].best.block.height == height),
    ensures
        count_at(nodes, members, height) == 1,
    decreases members.len(),
{
    let rest = members.drop_last();
    let last = members.last();
    assert(rest.no_duplicates());
    if last == id {
        assert forall|i: int| 0 <= i < rest.len() implies !(nodes.contains_key(
            #[trigger] rest[i],
        ) && nodes[rest[i]].best.block.height == height) by {
            assert(members[i] != members[members.len() - 1]);
        }
        lemma_count_none(nodes, rest, height);
    } else {
        let j = choose|j: int| 0 <= j < members.len() && members[j] == id;
        assert(rest[j] == id);
        assert forall|i: int| 0 <= i < rest.len() && #[trigger] rest[i] != id implies !(
        nodes.contains_key(rest[i]) && nodes[rest[i]].best.block.height == height) by {
            assert(rest[i] == members[i]);
        }
        lemma_count_one(nodes, rest, id, height);
        assert(members[members.len() - 1] != id);
    }
}

proof fn lemma_highest_frame(
    a: Map<NodeId, NodeRecordView>,
    b: Map<NodeId, NodeRecordView>,
    members: Seq<NodeId>,
    kind: BlockKind,
    head: Tip,
)
    requires
        is_highest(a, members, kind, head),
        forall|i: int|
            0 <= i < members.len() ==> b[#[trigger] members[i]].tip(kind) == a[members[i]].tip(
                kind,
            ),
    ensures
        is_highest(b, members, kind, head),
{
    let w = choose|i: int| 0 <= i < members.len() && a[#[trigger] members[i]].tip(kind) == head;
    assert(b[members[w]].tip(kind) == head);
}

/// A member of a chain that is in order is a node of that chain.
proof fn lemma_member(s: State, key: ChainKey, id: NodeId)
    requires
        chain_ok(s, key),
        s.chains[key].members.contains(id),
    ensures
        s.nodes.contains_key(id),
        s.nodes[id].chain == Some(key),
{
    let members = s.chains[key].members;
    let j = choose|j: int| 0 <= j < members.len() && members[j] == id;
    assert(s.nodes.contains_key(members[j]));
}

/// A subscriber of a chain that is in order is a feed that follows that chain.
proof fn lemma_subscriber(s: State, key: ChainKey, feed: FeedId)
    requires
        chain_ok(s, key),
        s.chains[key].subscribers.contains(feed),
    ensures
        s.feeds.contains_key(feed),
        s.feeds[feed].subscription == Some(key),
{
    let subscribers = s.chains[key].subscribers;
    let j = choose|j: int| 0 <= j < subscribers.len() && subscribers[j] == feed;
    assert(s.feeds.contains_key(subscribers[j]));
}

/// The chains that a step does not touch stay in order, when the step changes
/// at most one node and one feed and neither belongs to them.
proof fn lemma_other_chains(
    s: State,
    t: State,
    touched: ChainKey,
    node: Option<NodeId>,
    feed: Option<FeedId>,
)
    requires
        chains_ok(s),
        forall|key: ChainKey|
            key != touched && #[trigger] t.chains.contains_key(key) ==> s.chains.contains_key(key)
                && t.chains[key] == s.chains[key],
        forall|n: NodeId|
            #[trigger] s.nodes.contains_key(n) && Some(n) != node ==> t.nodes.contains_key(n) && {
                &&& t.nodes[n].chain == s.nodes[n].chain
                &&& t.nodes[n].best == s.nodes[n].best
                &&& t.nodes[n].finalized == s.nodes[n].finalized
            },
        forall|f: FeedId|
            #[trigger] s.feeds.contains_key(f) && Some(f) != feed ==> t.feeds.contains_key(f)
                && t.feeds[f] == s.feeds[f],
        node matches Some(n) ==> (s.nodes.contains_key(n) ==> s.nodes[n].chain == Some(touched)
            || s.nodes[n].chain is None),
        feed matches Some(f) ==> (s.feeds.contains_key(f) ==> s.feeds[f].subscription == Some(
            touched,
        ) || s.feeds[f].subscription is None),
    ensures
        forall|key: ChainKey|
            key != touched && #[trigger] t.chains.contains_key(key) ==> chain_ok(t, key),
{
    assert forall|key: ChainKey| key != touched && #[trigger] t.chains.contains_key(
        key,
    ) implies chain_ok(t, key) by {
        assert(chain_ok(s, key));
        let c = s.chains[key];
        assert forall|i: int| 0 <= i < c.members.len() implies {
            let m = #[trigger] c.members[i];
            &&& t.nodes.contains_key(m)
            &&& t.nodes[m].chain == s.nodes[m].chain
            &&& t.nodes[m].best == s.nodes[m].best
            &&& t.nodes[m].finalized == s.nodes[m].finalized
        } by {
            assert(c.members.contains(c.members[i]));
            lemma_member(s, key, c.members[i]);
        }
        assert forall|i: int| 0 <= i < c.subscribers.len() implies {
            let f = #[trigger] c.subscribers[i];
            &&& t.feeds.contains_key(f)
            &&& t.feeds[f] == s.feeds[f]
        } by {
            assert(c.subscribers.contains(c.subscribers[i]));
            lemma_subscriber(s, key, c.subscribers[i]);
        }
        lemma_chain_frame(s, t, key);
    }
}

/// Replacing a node's record by one with the same chain and heads keeps the
/// invariant.
proof fn lemma_record_touch_inv(s: State, id: NodeId, record: NodeRecordView)
    requires
        inv(s),
        s.nodes.contains_key(id),
        record.chain == s.nodes[id].chain,
        record.best == s.nodes[id].best,
        record.finalized == s.nodes[id].finalized,
    ensures
        inv(State { nodes: s.nodes.insert(id, record), ..s }),
{
    let t = State { nodes: s.nodes.insert(id, record), ..s };
    assert forall|key: ChainKey| #[trigger] t.chains.contains_key(key) implies chain_ok(
        t,
        key,
    ) by {
        assert(chain_ok(s, key));
        lemma_chain_frame(s, t, key);
    }
    assert forall|n: NodeId| #[trigger] t.nodes.contains_key(n) implies {
        &&& n < t.next_node
        &&& t.nodes[n].best.stamp <= t.clock
        &&& t.nodes[n].finalized.stamp <= t.clock
        &&& (t.nodes[n].chain matches Some(key) ==> t.chains.contains_key(key)
            && t.chains[key].members.contains(n))
    } by {
        assert(s.nodes.contains_key(n));
    }
}

/// The initial state satisfies the invariant.
pub proof fn lemma_init_inv()
    ensures
        inv(init()),
{
}

/// A connecting node keeps the invariant, and its id is one that no node had.
pub proof fn lemma_node_connected_inv(s: State, now: u64)
    requires
        inv(s),
    ensures
        inv(node_connected(s, now).0),
        node_connected(s, now).1 matches Some(id) ==> !s.nodes.contains_key(id),
{
    let t = node_connected(s, now).0;
    if s.next_node != u64::MAX {
        assert forall|key: ChainKey| #[trigger] t.chains.contains_key(key) implies chain_ok(
            t,
            key,
        ) by {
            assert(chain_ok(s, key));
            lemma_chain_frame(s, t, key);
        }
    }
}

/// A connecting feed keeps the invariant, and its id is one that no feed had.
pub proof fn lemma_feed_connected_inv(s: State)
    requires
        inv(s),
    ensures
        inv(feed_connected(s).0),
        feed_connected(s).1 matches Some(id) ==> !s.feeds.contains_key(id),
{
    let t = feed_connected(s).0;
    if s.next_feed != u64::MAX {
        assert forall|key: ChainKey| #[trigger] t.chains.contains_key(key) implies chain_ok(
            t,
            key,
        ) by {
            assert(chain_ok(s, key));
            lemma_chain_frame(s, t, key);
        }
    }
}

/// A handshake keeps the invariant.
pub proof fn lemma_handshake_inv(
    s: State,
    id: NodeId,
    chain: ChainKey,
    details: NodeDetailsView,
    now: u64,
)
    requires
        inv(s),
    ensures
        inv(handshake(s, id, chain, details, now).state),
{
    let t = handshake(s, id, chain, details, now).state;
    if may_join(s, id, chain) {
        let record = t.nodes[id];
        let fresh = !s.chains.contains_key(chain);
        let before = if fresh {
            crate::model::empty_chain()
        } else {
            s.chains[chain]
        };
        let after = t.chains[chain];
        lemma_push_contains(before.members, id);
        if !fresh {
            assert(chain_ok(s, chain));
            if before.members.contains(id) {
                lemma_member(s, chain, id);
            }
        }
        assert(!before.members.contains(id));
        lemma_other_chains(s, t, chain, Some(id), None);
        assert(chain_ok(t, chain)) by {
            assert forall|i: int, j: int|
                0 <= i < after.members.len() && 0 <= j < after.members.len() && i
                    != j implies after.members[i] != after.members[j] by {
                if i < before.members.len() {
                    assert(before.members.contains(before.members[i]));
                }
                if j < before.members.len() {
                    assert(before.members.contains(before.members[j]));
                }
            }
            assert forall|i: int| 0 <= i < after.members.len() implies t.nodes.contains_key(
                #[trigger] after.members[i],
            ) && t.nodes[after.members[i]].chain == Some(chain) by {
                if i < before.members.len() {
                    assert(before.members.contains(before.members[i]));
                    lemma_member(s, chain, before.members[i]);
                }
            }
            assert forall|i: int| 0 <= i < after.subscribers.len() implies t.feeds.contains_key(
                #[trigger] after.subscribers[i],
            ) && t.feeds[after.subscribers[i]].subscription == Some(chain) by {
                assert(before.subscribers.contains(before.subscribers[i]));
            }
            lemma_join_synced(s, id, chain, record);
            lemma_join_highest(s.nodes, before.members, id, record, BlockKind::Best, before.best);
            lemma_join_highest(
                s.nodes,
                before.members,
                id,
                record,
                BlockKind::Finalized,
                before.finalized,
            );
        }
        assert forall|n: NodeId| #[trigger] t.nodes.contains_key(n) implies {
            &&& n < t.next_node
            &&& t.nodes[n].best.stamp <= t.clock
            &&& t.nodes[n].finalized.stamp <= t.clock
            &&& (t.nodes[n].chain matches Some(key) ==> t.chains.contains_key(key)
                && t.chains[key].members.contains(n))
        } by {
            assert(s.nodes.contains_key(n));
        }
        assert forall|f: FeedId| #[trigger] t.feeds.contains_key(f) implies {
            &&& f < t.next_feed
            &&& (t.feeds[f].subscription matches Some(key) ==> t.chains.contains_key(key)
                && t.chains[key].subscribers.contains(f))
        } by {
            assert(s.feeds.contains_key(f));
        }
    }
}

/// When a node joins a chain, the chain still knows how many of its members
/// are at its best height.
proof fn lemma_join_synced(s: State, id: NodeId, chain: ChainKey, record: NodeRecordView)
    requires
        inv(s),
        may_join(s, id, chain),
        !chain_to_join(s, chain).members.contains(id),
    ensures
        ({
            let before = chain_to_join(s, chain);
            let best = if tip_le(before.best, record.best) {
                record.best
            } else {
                before.best
            };
            recount(
                before.synced,
                before.best.block.height,
                best.block.height,
                None,
                record.best.block.height,
            ) == count_at(s.nodes.insert(id, record), before.members.push(id), best.block.height)
        }),
{
    let before = chain_to_join(s, chain);
    let members = before.members;
    let after = s.nodes.insert(id, record);
    let best = if tip_le(before.best, record.best) {
        record.best
    } else {
        before.best
    };
    let height = best.block.height;
    assert(members.push(id).drop_last() =~= members);
    assert forall|i: int| 0 <= i < members.len() implies (s.nodes.contains_key(
        #[trigger] members[i],
    ) <==> after.contains_key(members[i])) && s.nodes[members[i]].best.block.height
        == after[members[i]].best.block.height by {
        assert(members.contains(members[i]));
    }
    lemma_count_frame(s.nodes, after, members, height);
    lemma_count_bound(s.nodes, members, height);
    if s.chains.contains_key(chain) {
        assert(chain_ok(s, chain));
    }
    if height != before.best.block.height {
        assert forall|i: int| 0 <= i < members.len() implies !(s.nodes.contains_key(
            #[trigger] members[i],
        ) && s.nodes[members[i]].best.block.height == height) by {
            assert(tip_le(s.nodes[members[i]].tip(BlockKind::Best), before.best));
        }
        lemma_count_none(s.nodes, members, height);
    }
}

/// After a block update the chain still knows how many of its members are at
/// its best height.
proof fn lemma_block_update_synced(s: State, id: NodeId, kind: BlockKind, block: Block, now: u64)
    requires
        inv(s),
        reporting_chain(s, id) is Some,
        s.clock < u64::MAX,
    ensures
        ({
            let t = block_update(s, id, kind, block, now).state;
            let key = reporting_chain(s, id).unwrap();
            t.chains[key].synced == count_at(
                t.nodes,
                t.chains[key].members,
                t.chains[key].best.block.height,
            )
        }),
{
    let t = block_update(s, id, kind, block, now).state;
    let key = reporting_chain(s, id).unwrap();
    let chain = s.chains[key];
    let members = chain.members;
    let after = t.chains[key];
    let height = after.best.block.height;
    let tip = Tip { block, stamp: (s.clock + 1) as u64 };
    assert(chain_ok(s, key));
    assert(members.contains(id));
    lemma_count_bound(t.nodes, members, height);
    match kind {
        BlockKind::Finalized => {
            assert forall|i: int| 0 <= i < members.len() implies (s.nodes.contains_key(
                #[trigger] members[i],
            ) <==> t.nodes.contains_key(members[i])) && s.nodes[members[i]].best.block.height
                == t.nodes[members[i]].best.block.height by {}
            lemma_count_frame(s.nodes, t.nodes, members, height);
        },
        BlockKind::Best => {
            let sought = !tip_le(chain.best, tip) && s.nodes[id].best.stamp == chain.best.stamp;
            if !sought {
                if height != chain.best.block.height {
                    assert(after.best == tip);
                    assert forall|i: int|
                        0 <= i < members.len() && #[trigger] members[i] != id implies !(
                    t.nodes.contains_key(members[i]) && t.nodes[members[i]].best.block.height
                        == height) by {
                        assert(tip_le(s.nodes[members[i]].tip(BlockKind::Best), chain.best));
                    }
                    lemma_count_one(t.nodes, members, id, height);
                } else {
                    lemma_count_insert(s.nodes, members, id, t.nodes[id], height);
                }
            }
        },
    }
}

/// When a node joins a chain, the chain's head becomes the greater of the old
/// head and the node's.
proof fn lemma_join_highest(
    nodes: Map<NodeId, NodeRecordView>,
    members: Seq<NodeId>,
    id: NodeId,
    record: NodeRecordView,
    kind: BlockKind,
    head: Tip,
)
    requires
        !members.contains(id),
        members.len() == 0 || is_highest(nodes, members, kind, head),
        members.len() == 0 ==> head == crate::types::zero_tip(),
    ensures
        is_highest(
            nodes.insert(id, record),
            members.push(id),
            kind,
            if tip_le(head, record.tip(kind)) {
                record.tip(kind)
            } else {
                head
            },
        ),
{
    let joined = members.push(id);
    let after = nodes.insert(id, record);
    let top = if tip_le(head, record.tip(kind)) {
        record.tip(kind)
    } else {
        head
    };
    assert forall|i: int| 0 <= i < members.len() implies after[#[trigger] joined[i]]
        == nodes[members[i]] by {
        assert(members.contains(members[i]));
    }
    if tip_le(head, record.tip(kind)) {
        assert(after[joined[members.len() as int]].tip(kind) == top);
    } else {
        let w = choose|i: int|
            0 <= i < members.len() && nodes[#[trigger] members[i]].tip(kind) == head;
        assert(after[joined[w]].tip(kind) == top);
    }
    assert forall|i: int| 0 <= i < joined.len() implies tip_le(
        after[#[trigger] joined[i]].tip(kind),
        top,
    ) by {
        if i < members.len() {
            assert(after[joined[i]] == nodes[members[i]]);
            lemma_tip_order(nodes[members[i]].tip(kind), head, top);
        }
        lemma_tip_order(head, record.tip(kind), top);
    }
}

/// After a block update the chain's head of either kind is the greatest among
/// its members.
proof fn lemma_block_update_highest(
    s: State,
    id: NodeId,
    kind: BlockKind,
    block: Block,
    now: u64,
    which: BlockKind,
)
    requires
        inv(s),
        reporting_chain(s, id) is Some,
        s.clock < u64::MAX,
    ensures
        ({
            let t = block_update(s, id, kind, block, now).state;
            let key = reporting_chain(s, id).unwrap();
            is_highest(t.nodes, t.chains[key].members, which, t.chains[key].tip(which))
        }),
{
    let t = block_update(s, id, kind, block, now).state;
    let key = reporting_chain(s, id).unwrap();
    let chain = s.chains[key];
    let members = chain.members;
    let tip = Tip { block, stamp: (s.clock + 1) as u64 };
    assert(chain_ok(s, key));
    assert(is_highest(s.nodes, members, which, chain.tip(which)));
    assert(members.contains(id));
    let at = choose|j: int| 0 <= j < members.len() && members[j] == id;
    assert forall|i: int| 0 <= i < members.len() implies t.nodes.contains_key(
        #[trigger] members[i],
    ) by {
        assert(s.nodes.contains_key(members[i]));
    }
    if which != kind {
        lemma_highest_frame(s.nodes, t.nodes, members, which, chain.tip(which));
    } else {
        let head = t.chains[key].tip(kind);
        if tip_le(chain.tip(kind), tip) {
            assert(t.nodes[members[at]].tip(kind) == head);
            assert forall|i: int| 0 <= i < members.len() implies tip_le(
                t.nodes[#[trigger] members[i]].tip(kind),
                head,
            ) by {
                if members[i] != id {
                    lemma_tip_order(s.nodes[members[i]].tip(kind), chain.tip(kind), tip);
                }
            }
        } else if s.nodes[id].tip(kind).stamp == chain.tip(kind).stamp {
            lemma_max_tip_is_highest(t.nodes, members, kind);
        } else {
            let w = choose|i: int|
                0 <= i < members.len() && s.nodes[#[trigger] members[i]].tip(kind) == chain.tip(
                    kind,
                );
            assert(members[w] != id);
            assert(t.nodes[members[w]].tip(kind) == head);
            lemma_tip_order(chain.tip(kind), tip, tip);
        }
    }
}

/// A block update keeps the invariant.
pub proof fn lemma_block_update_inv(s: State, id: NodeId, kind: BlockKind, block: Block, now: u64)
    requires
        inv(s),
    ensures
        inv(block_update(s, id, kind, block, now).state),
{
    let t = block_update(s, id, kind, block, now).state;
    if reporting_chain(s, id) is Some && s.clock < u64::MAX {
        let key = reporting_chain(s, id).unwrap();
        let chain = s.chains[key];
        assert(chain_ok(s, key));
        lemma_other_chains(s, t, key, Some(id), None);
        lemma_block_update_highest(s, id, kind, block, now, BlockKind::Best);
        lemma_block_update_highest(s, id, kind, block, now, BlockKind::Finalized);
        lemma_block_update_synced(s, id, kind, block, now);
        assert(chain_ok(t, key)) by {
            assert(t.chains[key].members == chain.members);
            assert(t.chains[key].subscribers == chain.subscribers);
            assert forall|i: int| 0 <= i < chain.members.len() implies t.nodes.contains_key(
                #[trigger] chain.members[i],
            ) && t.nodes[chain.members[i]].chain == Some(key) by {
                assert(s.nodes.contains_key(chain.members[i]));
            }
        }
        assert forall|n: NodeId| #[trigger] t.nodes.contains_key(n) implies {
            &&& n < t.next_node
            &&& t.nodes[n].best.stamp <= t.clock
            &&& t.nodes[n].finalized.stamp <= t.clock
            &&& (t.nodes[n].chain matches Some(k) ==> t.chains.contains_key(k)
                && t.chains[k].members.contains(n))
        } by {
            assert(s.nodes.contains_key(n));
        }
        assert forall|f: FeedId| #[trigger] t.feeds.contains_key(f) implies {
            &&& f < t.next_feed
            &&& (t.feeds[f].subscription matches Some(k) ==> t.chains.contains_key(k)
                && t.chains[k].subscribers.contains(f))
        } by {
            assert(s.feeds.contains_key(f));
        }
    }
}

/// Any report keeps the invariant.
pub proof fn lemma_node_report_inv(s: State, id: NodeId, report: ReportView, now: u64)
    requires
        inv(s),
    ensures
        inv(node_report(s, id, report, now).state),
{
    match report {
        ReportView::Handshake { chain, details } => {
            lemma_handshake_inv(s, id, chain, details, now);
        },
        ReportView::BlockUpdate { kind, block } => {
            lemma_block_update_inv(s, id, kind, block, now);
        },
        ReportView::StatsUpdate { stats } => {
            if reporting_chain(s, id) is Some {
                lemma_record_touch_inv(
                    s,
                    id,
                    NodeRecordView { stats, last_seen: now, ..s.nodes[id] },
                );
            }
        },
        ReportView::HardwareUpdate { hardware } => {
            if reporting_chain(s, id) is Some {
                lemma_record_touch_inv(
                    s,
                    id,
                    NodeRecordView { hardware, last_seen: now, ..s.nodes[id] },
                );
            }
        },
        ReportView::Malformed => {},
    }
}

/// Attaching a location keeps the invariant.
pub proof fn lemma_node_located_inv(s: State, id: NodeId, location: Location)
    requires
        inv(s),
    ensures
        inv(node_located(s, id, location).state),
{
    if s.nodes.contains_key(id) {
        lemma_record_touch_inv(s, id, NodeRecordView { location: Some(location), ..s.nodes[id] });
    }
}

/// A disconnecting node keeps the invariant.
pub proof fn lemma_node_disconnected_inv(s: State, id: NodeId)
    requires
        inv(s),
    ensures
        inv(node_disconnected(s, id).state),
{
    let t = node_disconnected(s, id).state;
    if s.nodes.contains_key(id) {
        if reporting_chain(s, id) is None {
            assert(s.nodes[id].chain is None);
            assert forall|key: ChainKey| #[trigger] t.chains.contains_key(key) implies chain_ok(
                t,
                key,
            ) by {
                assert(chain_ok(s, key));
                let c = s.chains[key];
                assert forall|i: int| 0 <= i < c.members.len() implies c.members[i] != id by {
                    assert(c.members.contains(c.members[i]));
                    lemma_member(s, key, c.members[i]);
                }
                lemma_chain_frame(s, t, key);
            }
            assert forall|n: NodeId| #[trigger] t.nodes.contains_key(n) implies {
                &&& n < t.next_node
                &&& t.nodes[n].best.stamp <= t.clock
                &&& t.nodes[n].finalized.stamp <= t.clock
                &&& (t.nodes[n].chain matches Some(k) ==> t.chains.contains_key(k)
                    && t.chains[k].members.contains(n))
            } by {
                assert(s.nodes.contains_key(n));
            }
        } else {
            let key = reporting_chain(s, id).unwrap();
            let chain = s.chains[key];
            let members = without(chain.members, id);
            assert(chain_ok(s, key));
            lemma_without(chain.members, id);
            assert forall|i: int| 0 <= i < members.len() implies s.nodes.contains_key(
                #[trigger] members[i],
            ) && members[i] != id && s.nodes[members[i]].chain == Some(key) by {
                assert(members.contains(members[i]));
                lemma_member(s, key, members[i]);
            }
            // the chains that the node did not belong to
            assert forall|k: ChainKey| k != key && #[trigger] t.chains.contains_key(
                k,
            ) implies chain_ok(t, k) by {
                assert(chain_ok(s, k));
                let c = s.chains[k];
                assert forall|i: int| 0 <= i < c.members.len() implies c.members[i] != id by {
                    assert(c.members.contains(c.members[i]));
                    lemma_member(s, k, c.members[i]);
                }
                assert forall|i: int| 0 <= i < c.subscribers.len() implies {
                    let f = #[trigger] c.subscribers[i];
                    &&& t.feeds.contains_key(f)
                    &&& t.feeds[f] == s.feeds[f]
                } by {
                    assert(c.subscribers.contains(c.subscribers[i]));
                    lemma_subscriber(s, k, c.subscribers[i]);
                    if chain.subscribers.contains(c.subscribers[i]) {
                        lemma_subscriber(s, key, c.subscribers[i]);
                    }
                }
                lemma_chain_frame(s, t, k);
            }
            if members.len() == 0 {
                assert forall|n: NodeId| #[trigger] t.nodes.contains_key(n) implies {
                    &&& n < t.next_node
                    &&& t.nodes[n].best.stamp <= t.clock
                    &&& t.nodes[n].finalized.stamp <= t.clock
                    &&& (t.nodes[n].chain matches Some(k) ==> t.chains.contains_key(k)
                        && t.chains[k].members.contains(n))
                } by {
                    assert(s.nodes.contains_key(n));
                    if s.nodes[n].chain == Some(key) {
                        assert(chain.members.contains(n));
                        assert(members.contains(n));
                    }
                }
                assert forall|f: FeedId| #[trigger] t.feeds.contains_key(f) implies {
                    &&& f < t.next_feed
                    &&& (t.feeds[f].subscription matches Some(k) ==> t.chains.contains_key(k)
                        && t.chains[k].subscribers.contains(f))
                } by {
                    assert(s.feeds.contains_key(f));
                }
            } else {
                lemma_max_tip_is_highest(t.nodes, members, BlockKind::Best);
                lemma_max_tip_is_highest(t.nodes, members, BlockKind::Finalized);
                lemma_count_bound(t.nodes, members, t.chains[key].best.block.height);
                assert(chain_ok(t, key)) by {
                    assert forall|i: int|
                        0 <= i < chain.subscribers.len() implies t.feeds.contains_key(
                        #[trigger] chain.subscribers[i],
                    ) && t.feeds[chain.subscribers[i]].subscription == Some(key) by {
                        assert(s.feeds.contains_key(chain.subscribers[i]));
                    }
                }
                assert forall|n: NodeId| #[trigger] t.nodes.contains_key(n) implies {
                    &&& n < t.next_node
                    &&& t.nodes[n].best.stamp <= t.clock
                    &&& t.nodes[n].finalized.stamp <= t.clock
                    &&& (t.nodes[n].chain matches Some(k) ==> t.chains.contains_key(k)
                        && t.chains[k].members.contains(n))
                } by {
                    assert(s.nodes.contains_key(n));
                    if s.nodes[n].chain == Some(key) {
                        assert(chain.members.contains(n));
                        assert(members.contains(n));
                    }
                }
                assert forall|f: FeedId| #[trigger] t.feeds.contains_key(f) implies {
                    &&& f < t.next_feed
                    &&& (t.feeds[f].subscription matches Some(k) ==> t.chains.contains_key(k)
                        && t.chains[k].subscribers.contains(f))
                } by {
                    assert(s.feeds.contains_key(f));
                }
            }
        }
    }
}

/// A feed that gives up its subscription keeps the invariant, and is left
/// without a subscription.
pub proof fn lemma_leave_inv(s: State, feed: FeedId)
    requires
        inv(s),
        s.feeds.contains_key(feed),
    ensures
        inv(leave(s, feed).state),
        leave(s, feed).state.feeds.contains_key(feed),
        leave(s, feed).state.feeds[feed].subscription is None,
        leave(s, feed).state.nodes == s.nodes,
        forall|key: ChainKey|
            leave(s, feed).state.chains.contains_key(key) <==> s.chains.contains_key(key),
        forall|key: ChainKey| #[trigger]
            s.chains.contains_key(key) ==> leave(s, feed).state.chains[key].members
                == s.chains[key].members && leave(s, feed).state.chains[key].best
                == s.chains[key].best && leave(s, feed).state.chains[key].finalized
                == s.chains[key].finalized && leave(s, feed).state.chains[key].synced
                == s.chains[key].synced,
{
    let t = leave(s, feed).state;
    if s.feeds[feed].subscription is Some {
        let key = s.feeds[feed].subscription.unwrap();
        assert(s.chains.contains_key(key));
        assert(chain_ok(s, key));
        let chain = s.chains[key];
        let subscribers = without(chain.subscribers, feed);
        lemma_without(chain.subscribers, feed);
        lemma_other_chains(s, t, key, None, Some(feed));
        assert(chain_ok(t, key)) by {
            assert forall|i: int| 0 <= i < subscribers.len() implies t.feeds.contains_key(
                #[trigger] subscribers[i],
            ) && t.feeds[subscribers[i]].subscription == Some(key) by {
                assert(subscribers.contains(subscribers[i]));
                lemma_subscriber(s, key, subscribers[i]);
            }
            lemma_highest_frame(s.nodes, t.nodes, chain.members, BlockKind::Best, chain.best);
            lemma_highest_frame(
                s.nodes,
                t.nodes,
                chain.members,
                BlockKind::Finalized,
                chain.finalized,
            );
        }
        assert forall|n: NodeId| #[trigger] t.nodes.contains_key(n) implies {
            &&& n < t.next_node
            &&& t.nodes[n].best.stamp <= t.clock
            &&& t.nodes[n].finalized.stamp <= t.clock
            &&& (t.nodes[n].chain matches Some(k) ==> t.chains.contains_key(k)
                && t.chains[k].members.contains(n))
        } by {
            assert(s.nodes.contains_key(n));
        }
        assert forall|f: FeedId| #[trigger] t.feeds.contains_key(f) implies {
            &&& f < t.next_feed
            &&& (t.feeds[f].subscription matches Some(k) ==> t.chains.contains_key(k)
                && t.chains[k].subscribers.contains(f))
        } by {
            assert(s.feeds.contains_key(f));
            if f != feed && s.feeds[f].subscription == Some(key) {
                assert(chain.subscribers.contains(f));
                assert(subscribers.contains(f));
            }
        }
    }
}

/// A subscription keeps the invariant.
pub proof fn lemma_feed_subscribe_inv(s: State, feed: FeedId, chain: ChainKey)
    requires
        inv(s),
    ensures
        inv(feed_subscribe(s, feed, chain).state),
{
    if s.feeds.contains_key(feed) {
        lemma_leave_inv(s, feed);
        let m = leave(s, feed).state;
        let t = feed_subscribe(s, feed, chain).state;
        if m.chains.contains_key(chain) {
            let entry = m.chains[chain];
            assert(chain_ok(m, chain));
            lemma_push_contains(entry.subscribers, feed);
            if entry.subscribers.contains(feed) {
                lemma_subscriber(m, chain, feed);
            }
            lemma_other_chains(m, t, chain, None, Some(feed));
            assert(chain_ok(t, chain)) by {
                let joined = entry.subscribers.push(feed);
                assert forall|i: int, j: int|
                    0 <= i < joined.len() && 0 <= j < joined.len() && i != j implies joined[i]
                    != joined[j] by {
                    if i < entry.subscribers.len() {
                        assert(entry.subscribers.contains(entry.subscribers[i]));
                    }
                    if j < entry.subscribers.len() {
                        assert(entry.subscribers.contains(entry.subscribers[j]));
                    }
                }
                assert forall|i: int| 0 <= i < joined.len() implies t.feeds.contains_key(
                    #[trigger] joined[i],
                ) && t.feeds[joined[i]].subscription == Some(chain) by {
                    if i < entry.subscribers.len() {
                        assert(entry.subscribers.contains(entry.subscribers[i]));
                        lemma_subscriber(m, chain, entry.subscribers[i]);
                    }
                }
                lemma_highest_frame(m.nodes, t.nodes, entry.members, BlockKind::Best, entry.best);
                lemma_highest_frame(
                    m.nodes,
                    t.nodes,
                    entry.members,
                    BlockKind::Finalized,
                    entry.finalized,
                );
            }
            assert forall|n: NodeId| #[trigger] t.nodes.contains_key(n) implies {
                &&& n < t.next_node
                &&& t.nodes[n].best.stamp <= t.clock
                &&& t.nodes[n].finalized.stamp <= t.clock
                &&& (t.nodes[n].chain matches Some(k) ==> t.chains.contains_key(k)
                    && t.chains[k].members.contains(n))
            } by {
                assert(m.nodes.contains_key(n));
            }
            assert forall|f: FeedId| #[trigger] t.feeds.contains_key(f) implies {
                &&& f < t.next_feed
                &&& (t.feeds[f].subscription matches Some(k) ==> t.chains.contains_key(k)
                    && t.chains[k].subscribers.contains(f))
            } by {
                assert(m.feeds.contains_key(f));
            }
        }
    }
}

/// Giving up a subscription keeps the invariant.
pub proof fn lemma_feed_unsubscribe_inv(s: State, feed: FeedId)
    requires
        inv(s),
    ensures
        inv(feed_unsubscribe(s, feed).state),
{
    if s.feeds.contains_key(feed) {
        lemma_leave_inv(s, feed);
    }
}

/// A disconnecting feed keeps the invariant.
pub proof fn lemma_feed_disconnected_inv(s: State, feed: FeedId)
    requires
        inv(s),
    ensures
        inv(feed_disconnected(s, feed).state),
{
    if s.feeds.contains_key(feed) {
        lemma_leave_inv(s, feed);
        let m = leave(s, feed).state;
        let t = feed_disconnected(s, feed).state;
        assert forall|key: ChainKey| #[trigger] t.chains.contains_key(key) implies chain_ok(
            t,
            key,
        ) by {
            assert(chain_ok(m, key));
            let c = m.chains[key];
            assert forall|i: int| 0 <= i < c.subscribers.len() implies {
                let f = #[trigger] c.subscribers[i];
                &&& t.feeds.contains_key(f)
                &&& t.feeds[f] == m.feeds[f]
            } by {
                assert(c.subscribers.contains(c.subscribers[i]));
                lemma_subscriber(m, key, c.subscribers[i]);
            }
            lemma_chain_frame(m, t, key);
        }
        assert forall|f: FeedId| #[trigger] t.feeds.contains_key(f) implies {
            &&& f < t.next_feed
            &&& (t.feeds[f].subscription matches Some(k) ==> t.chains.contains_key(k)
                && t.chains[k].subscribers.contains(f))
        } by {
            assert(m.feeds.contains_key(f));
        }
    }
}

/// Whatever the event, the relay's reaction keeps the invariant.
pub proof fn lemma_react_inv(s: State, event: EventView)
    requires
        inv(s),
    ensures
        inv(react(s, event).state),
{
    match event {
        EventView::NodeConnected { now } => {
            lemma_node_connected_inv(s, now);
        },
        EventView::NodeReport { node, report, now } => {
            lemma_node_report_inv(s, node, report, now);
        },
        EventView::NodeLocated { node, location } => {
            lemma_node_located_inv(s, node, location);
        },
        EventView::NodeDisconnected { node } => {
            lemma_node_disconnected_inv(s, node);
        },
        EventView::FeedConnected => {
            lemma_feed_connected_inv(s);
        },
        EventView::FeedSubscribe { feed, chain } => {
            lemma_feed_subscribe_inv(s, feed, chain);
        },
        EventView::FeedUnsubscribe { feed } => {
            lemma_feed_unsubscribe_inv(s, feed);
        },
        EventView::FeedDisconnected { feed } => {
            lemma_feed_disconnected_inv(s, feed);
        },
    }
}

/// The invariant holds after any sequence of events, starting from the
/// initial state.
pub proof fn lemma_reachable_inv(events: Seq<EventView>)
    ensures
        inv(run(init(), events)),
    decreases events.len(),
{
    if events.len() == 0 {
        lemma_init_inv();
    } else {
        lemma_reachable_inv(events.drop_last());
        lemma_react_inv(run(init(), events.drop_last()), events.last());
    }
}

/// In every reachable state a chain exists exactly if some node belongs to
/// it, and a chain that exists has at least one member.
pub proof fn lemma_chain_exists_iff_member(events: Seq<EventView>, key: ChainKey)
    ensures
        ({
            let s = run(init(), events);
            &&& s.chains.contains_key(key) <==> exists|id: NodeId| #[trigger]
                s.nodes.contains_key(id) && s.nodes[id].chain == Some(key)
            &&& s.chains.contains_key(key) ==> s.chains[key].members.len() >= 1
        }),
{
    let s = run(init(), events);
    lemma_reachable_inv(events);
    if s.chains.contains_key(key) {
        assert(chain_ok(s, key));
        let first = s.chains[key].members[0];
        assert(s.nodes.contains_key(first) && s.nodes[first].chain == Some(key));
    }
}

/// In every reachable state the members of a chain are exactly the nodes that
/// have joined it, each listed once.
pub proof fn lemma_members_are_the_chains_nodes(events: Seq<EventView>, key: ChainKey)
    requires
        run(init(), events).chains.contains_key(key),
    ensures
        ({
            let s = run(init(), events);
            &&& s.chains[key].members.no_duplicates()
            &&& forall|id: NodeId|
                s.chains[key].members.contains(id) <==> s.nodes.contains_key(id)
                    && s.nodes[id].chain == Some(key)
        }),
{
    let s = run(init(), events);
    lemma_reachable_inv(events);
    assert(chain_ok(s, key));
    assert forall|id: NodeId|
        s.chains[key].members.contains(id) <==> s.nodes.contains_key(id) && s.nodes[id].chain
            == Some(key) by {
        if s.chains[key].members.contains(id) {
            lemma_member(s, key, id);
        }
    }
}

/// In every reachable state the height of a chain's best block is the
/// greatest best height among its members, and likewise for the finalized
/// block: some member reports that height and none reports a greater one.
pub proof fn lemma_chain_height_is_maximum(events: Seq<EventView>, key: ChainKey, kind: BlockKind)
    requires
        run(init(), events).chains.contains_key(key),
    ensures
        ({
            let s = run(init(), events);
            let chain = s.chains[key];
            &&& exists|i: int|
                0 <= i < chain.members.len() && s.nodes[#[trigger] chain.members[i]].tip(
                    kind,
                ).block.height == chain.tip(kind).block.height
            &&& forall|i: int|
                0 <= i < chain.members.len() ==> s.nodes[#[trigger] chain.members[i]].tip(
                    kind,
                ).block.height <= chain.tip(kind).block.height
        }),
{
    let s = run(init(), events);
    let chain = s.chains[key];
    lemma_reachable_inv(events);
    assert(chain_ok(s, key));
    assert(is_highest(s.nodes, chain.members, kind, chain.tip(kind)));
    let w = choose|i: int|
        0 <= i < chain.members.len() && s.nodes[#[trigger] chain.members[i]].tip(kind)
            == chain.tip(kind);
    assert(s.nodes[chain.members[w]].tip(kind).block.height == chain.tip(kind).block.height);
}

/// In every reachable state a chain's head is an observation of one of its
/// members, and among the members that are as high it is the latest: forks
/// are not resolved, the chain shows what was seen last.
pub proof fn lemma_head_is_latest_of_highest(
    events: Seq<EventView>,
    key: ChainKey,
    kind: BlockKind,
)
    requires
        run(init(), events).chains.contains_key(key),
    ensures
        ({
            let s = run(init(), events);
            let chain = s.chains[key];
            &&& exists|i: int|
                0 <= i < chain.members.len() && s.nodes[#[trigger] chain.members[i]].tip(kind)
                    == chain.tip(kind)
            &&& forall|i: int|
                0 <= i < chain.members.len() && s.nodes[#[trigger] chain.members[i]].tip(
                    kind,
                ).block.height == chain.tip(kind).block.height ==> s.nodes[chain.members[i]].tip(
                    kind,
                ).stamp <= chain.tip(kind).stamp
        }),
{
    let s = run(init(), events);
    let chain = s.chains[key];
    lemma_reachable_inv(events);
    assert(chain_ok(s, key));
    assert(is_highest(s.nodes, chain.members, kind, chain.tip(kind)));
}

/// In every reachable state a chain's statistics count its members right:
/// the node count is the number of its members, and the count of synced
/// nodes is the number of members whose best block is as high as the chain's.
pub proof fn lemma_statistics_count_members(events: Seq<EventView>, key: ChainKey)
    requires
        run(init(), events).chains.contains_key(key),
    ensures
        ({
            let s = run(init(), events);
            let chain = s.chains[key];
            &&& chain.stats().node_count == chain.members.len()
            &&& chain.stats().synced == count_at(s.nodes, chain.members, chain.best.block.height)
            &&& 1 <= chain.stats().synced <= chain.stats().node_count <= usize::MAX
            &&& chain.stats().best == chain.best.block
            &&& chain.stats().finalized == chain.finalized.block
        }),
{
    let s = run(init(), events);
    let chain = s.chains[key];
    lemma_reachable_inv(events);
    assert(chain_ok(s, key));
    lemma_count_bound(s.nodes, chain.members, chain.best.block.height);
    let w = choose|i: int|
        0 <= i < chain.members.len() && s.nodes[#[trigger] chain.members[i]].tip(BlockKind::Best)
            == chain.best;
    assert(s.nodes.contains_key(chain.members[w]));
    if count_at(s.nodes, chain.members, chain.best.block.height) == 0 {
        lemma_count_positive(s.nodes, chain.members, w, chain.best.block.height);
    }
}

/// Where a member is at a height, the count for it is at least one.
proof fn lemma_count_positive(
    nodes: Map<NodeId, NodeRecordView>,
    members: Seq<NodeId>,
    at: int,
    height: u64,
)
    requires
        0 <= at < members.len(),
        nodes.contains_key(members[at]),
        nodes[members[at]].best.block.height == height,
    ensures
        count_at(nodes, members, height) >= 1,
    decreases members.len(),
{
    if at < members.len() - 1 {
        assert(members.drop_last()[at] == members[at]);
        lemma_count_positive(nodes, members.drop_last(), at, height);
    } else {
        assert(members.last() == members[at]);
    }
}

/// Among equal heights the latest report wins: in a reachable state, a block
/// update that is at least as high as the chain's head becomes the chain's head.
pub proof fn lemma_latest_report_wins(
    events: Seq<EventView>,
    id: NodeId,
    kind: BlockKind,
    block: Block,
    now: u64,
)
    requires
        reporting_chain(run(init(), events), id) is Some,
        run(init(), events).clock < u64::MAX,
        block.height >= run(init(), events).chains[reporting_chain(
            run(init(), events),
            id,
        ).unwrap()].tip(kind).block.height,
    ensures
        ({
            let s = run(init(), events);
            let key = reporting_chain(s, id).unwrap();
            block_update(s, id, kind, block, now).state.chains[key].tip(kind).block == block
        }),
{
    let s = run(init(), events);
    let key = reporting_chain(s, id).unwrap();
    let chain = s.chains[key];
    lemma_reachable_inv(events);
    assert(chain_ok(s, key));
    assert(is_highest(s.nodes, chain.members, kind, chain.tip(kind)));
    let w = choose|i: int|
        0 <= i < chain.members.len() && s.nodes[#[trigger] chain.members[i]].tip(kind)
            == chain.tip(kind);
    assert(s.nodes.contains_key(chain.members[w]));
    assert(chain.tip(kind).stamp <= s.clock);
}

/// The roster of a chain whose members are all known lists every member once,
/// in order, with its current record.
pub proof fn lemma_roster_complete(nodes: Map<NodeId, NodeRecordView>, members: Seq<NodeId>)
    requires
        forall|i: int| 0 <= i < members.len() ==> nodes.contains_key(#[trigger] members[i]),
    ensures
        roster(nodes, members).len() == members.len(),
        forall|i: int|
            0 <= i < members.len() ==> #[trigger] roster(nodes, members)[i] == (NodeEntryView {
                id: members[i],
                record: nodes[members[i]],
            }),
    decreases members.len(),
{
    if members.len() > 0 {
        let rest = members.drop_last();
        assert forall|i: int| 0 <= i < rest.len() implies nodes.contains_key(
            #[trigger] rest[i],
        ) by {
            assert(rest[i] == members[i]);
        }
        lemma_roster_complete(nodes, rest);
        assert(nodes.contains_key(members[members.len() - 1]));
        assert forall|i: int| 0 <= i < members.len() implies #[trigger] roster(nodes, members)[i]
            == (NodeEntryView { id: members[i], record: nodes[members[i]] }) by {
            if i < rest.len() {
                assert(roster(nodes, rest)[i] == (NodeEntryView {
                    id: rest[i],
                    record: nodes[rest[i]],
                }));
            }
        }
    }
}

/// In a reachable state, a feed that subscribes to a chain with N members is
/// sent exactly one snapshot, as the last message of the reply. The snapshot
/// names the chain, carries its statistics, and lists each of the N members
/// once, in order, with the member's current record.
pub proof fn lemma_subscribe_sends_one_snapshot(
    events: Seq<EventView>,
    feed: FeedId,
    chain: ChainKey,
)
    requires
        run(init(), events).feeds.contains_key(feed),
        run(init(), events).chains.contains_key(chain),
    ensures
        ({
            let s = run(init(), events);
            let members = s.chains[chain].members;
            let out = feed_subscribe(s, feed, chain).outbox;
            &&& out.len() >= 1
            &&& out.last().feed == feed
            &&& out.last().message matches FeedMessageView::Snapshot { chain: c, stats, nodes }
            &&& c == chain
            &&& stats == s.chains[chain].stats()
            &&& members.no_duplicates()
            &&& nodes.len() == members.len()
            &&& forall|i: int|
                0 <= i < members.len() ==> #[trigger] nodes[i] == (NodeEntryView {
                    id: members[i],
                    record: s.nodes[members[i]],
                })
            &&& forall|j: int|
                0 <= j < out.len() - 1 ==> !(#[trigger] out[j].message is Snapshot)
        }),
{
    let s = run(init(), events);
    lemma_reachable_inv(events);
    lemma_leave_inv(s, feed);
    let m = leave(s, feed).state;
    assert(chain_ok(s, chain));
    assert(m.chains.contains_key(chain));
    let members = s.chains[chain].members;
    assert(m.chains[chain].members == members);
    lemma_roster_complete(s.nodes, members);
}

/// Ids are never handed out twice: whatever the event, the next free ids do
/// not go down, and an id that is assigned is the next free one, greater than
/// the id of every node, or feed, that is or ever was connected.
pub proof fn lemma_ids_are_fresh(events: Seq<EventView>, event: EventView)
    ensures
        ({
            let s = run(init(), events);
            let r = react(s, event);
            &&& r.state.next_node >= s.next_node
            &&& r.state.next_feed >= s.next_feed
            &&& forall|id: NodeId| #[trigger] s.nodes.contains_key(id) ==> id < s.next_node
            &&& forall|id: FeedId| #[trigger] s.feeds.contains_key(id) ==> id < s.next_feed
            &&& r.assigned matches Some(id) ==> {
                &&& event is NodeConnected || event is FeedConnected
                &&& event is NodeConnected ==> id == s.next_node && r.state.next_node > id
                    && r.state.nodes.contains_key(id)
                &&& event is FeedConnected ==> id == s.next_feed && r.state.next_feed > id
                    && r.state.feeds.contains_key(id)
            }
        }),
{
    let s = run(init(), events);
    lemma_reachable_inv(events);
    match event {
        EventView::NodeReport { node, report, now } => {
            match report {
                ReportView::Handshake { chain, details } => {},
                ReportView::BlockUpdate { kind, block } => {},
                ReportView::StatsUpdate { stats } => {},
                ReportView::HardwareUpdate { hardware } => {},
                ReportView::Malformed => {},
            }
        },
        _ => {},
    }
}

/// A node's chain, once known, is settled: whatever the event, a node that
/// has joined a chain and is still connected afterwards belongs to the same
/// chain.
pub proof fn lemma_chain_is_settled(s: State, event: EventView, id: NodeId)
    requires
        inv(s),
        s.nodes.contains_key(id),
        s.nodes[id].chain is Some,
        react(s, event).state.nodes.contains_key(id),
    ensures
        react(s, event).state.nodes[id].chain == s.nodes[id].chain,
{
    match event {
        EventView::NodeReport { node, report, now } => {
            match report {
                ReportView::Handshake { chain, details } => {},
                ReportView::BlockUpdate { kind, block } => {
                    match kind {
                        BlockKind::Best => {},
                        BlockKind::Finalized => {},
                    }
                },
                ReportView::StatsUpdate { stats } => {},
                ReportView::HardwareUpdate { hardware } => {},
                ReportView::Malformed => {},
            }
        },
        _ => {},
    }
}

/// A node that has left is gone for good: no later event brings its record
/// back, since its id is never handed out again.
pub proof fn lemma_no_way_back(events: Seq<EventView>, event: EventView, id: NodeId)
    requires
        id < run(init(), events).next_node,
        !run(init(), events).nodes.contains_key(id),
    ensures
        !react(run(init(), events), event).state.nodes.contains_key(id),
        id < react(run(init(), events), event).state.next_node,
{
    let s = run(init(), events);
    match event {
        EventView::NodeReport { node, report, now } => {
            match report {
                ReportView::Handshake { chain, details } => {},
                ReportView::BlockUpdate { kind, block } => {},
                ReportView::StatsUpdate { stats } => {},
                ReportView::HardwareUpdate { hardware } => {},
                ReportView::Malformed => {},
            }
        },
        _ => {},
    }
}

} // verus!
