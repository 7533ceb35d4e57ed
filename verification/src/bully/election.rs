//! What an election comes to, and what holds of the nodes' decisions
//! whatever the peers answer.

use crate::bully::consts::{LEADER_CHECK_INTERVAL, NANOS_PER_SEC};
use crate::bully::node::{vetoes, ElectionResult, ElectionStep, NodeView};
use crate::bully::roster::{above, below, has_id, lemma_ascending_parts, lemma_rank, rank};
use crate::bully::probe::{reply_to_elect, ReadOutcome};
use crate::error::ErrorView;
use crate::message::{frame_text, lemma_codec_round_trip, ElectResponse, Message, MessageType};
use vstd::prelude::*;

verus! {

/// How many ids an election that stands at `step` may still ask.
pub open spec fn ids_left(step: ElectionStep) -> int {
    match step {
        ElectionStep::Probe(p) => 256 - p,
        ElectionStep::Done(_) => 0,
    }
}

/// How an election of `node` ends that stands at `step`, where the peers in
/// `alive`, and no others, answer `Alive` when they are asked.
pub open spec fn election_from(node: NodeView, step: ElectionStep, alive: Set<u8>) -> ElectionResult
    decreases ids_left(step),
    via election_from_decreases
{
    match step {
        ElectionStep::Done(result) => result,
        ElectionStep::Probe(p) => election_from(node, node.step_after(p, alive.contains(p)), alive),
    }
}

#[via_fn]
proof fn election_from_decreases(node: NodeView, step: ElectionStep, alive: Set<u8>) {
    if let ElectionStep::Probe(p) = step {
        lemma_probe_above(node, p);
    }
}

/// How an election of `node` ends, where the peers in `alive`, and no
/// others, answer `Alive` when they are asked.
pub open spec fn election(node: NodeView, alive: Set<u8>) -> ElectionResult {
    election_from(node, node.first_step(), alive)
}

/// The peer that stops an election of `node` that stands at `step`: the
/// first that is asked and is alive. `None` where the election is won.
pub open spec fn vetoer_from(node: NodeView, step: ElectionStep, alive: Set<u8>) -> Option<u8>
    decreases ids_left(step),
    via vetoer_from_decreases
{
    match step {
        ElectionStep::Done(_) => None,
        ElectionStep::Probe(p) => if alive.contains(p) {
            Some(p)
        } else {
            vetoer_from(node, node.step_after(p, false), alive)
        },
    }
}

#[via_fn]
proof fn vetoer_from_decreases(node: NodeView, step: ElectionStep, alive: Set<u8>) {
    if let ElectionStep::Probe(p) = step {
        lemma_probe_above(node, p);
    }
}

/// The peer that stops an election of `node`, where the peers in `alive`,
/// and no others, answer `Alive` when they are asked.
pub open spec fn vetoer(node: NodeView, alive: Set<u8>) -> Option<u8> {
    vetoer_from(node, node.first_step(), alive)
}

/// The nodes in `alive` know each other: each stands in `nodes` under its
/// id, and each has every other one among its peers.
pub open spec fn meshed(nodes: Map<u8, NodeView>, alive: Set<u8>) -> bool {
    forall|a: u8| #[trigger]
        alive.contains(a) ==> nodes.dom().contains(a) && nodes[a].id == a && nodes[a].wf()
            && forall|b: u8| #[trigger] alive.contains(b) && b != a ==> has_id(nodes[a].peers, b)
}

/// The node that wins in the end where the node `id` opens an election: a
/// node that is stopped by a peer wakes that peer, which opens an election
/// of its own, and so on up to a node that nobody stops.
pub open spec fn last_winner(nodes: Map<u8, NodeView>, alive: Set<u8>, id: u8) -> u8
    decreases 256 - id,
{
    match vetoer(nodes[id], alive) {
        Some(v) => if v > id {
            last_winner(nodes, alive, v)
        } else {
            id
        },
        None => id,
    }
}

/// The `Elect` of the node `sender`.
pub open spec fn elect_of(sender: u8) -> Message {
    Message { message_type: MessageType::Elect, sender_id: sender }
}

/// The victory of the node `winner`.
pub open spec fn victory_of(winner: u8) -> Message {
    Message { message_type: MessageType::Victory, sender_id: winner }
}

/// The peer that is asked next is a peer with an id above the node's own and
/// above the id that was asked last.
pub proof fn lemma_probe_above(node: NodeView, bound: u8)
    ensures
        node.probe_above(bound) matches ElectionStep::Probe(q) ==> q > bound && q > node.id
            && has_id(node.peers, q),
        !(node.probe_above(bound) matches ElectionStep::Done(ElectionResult::Fail)),
{
    let floor = if bound > node.id {
        bound
    } else {
        node.id
    };
    let rest = node.peers.filter(above(floor));
    if rest.len() > 0 {
        node.peers.lemma_filter_pred(above(floor), 0);
        node.peers.lemma_filter_contains_rev(above(floor), rest[0]);
        assert(rest.contains(rest[0]));
        assert(node.peers.contains(rest[0]));
        let i = choose|i: int| 0 <= i < node.peers.len() && node.peers[i] == rest[0];
        assert(node.peers[i].id == rest[0].id);
    }
}

/// The peers below a node stand before the peers above it.
pub proof fn lemma_lower_and_higher(node: NodeView)
    requires
        node.wf(),
    ensures
        0 <= rank(node.peers, node.id) <= node.peers.len(),
        node.peers.filter(below(node.id)) == node.peers.take(rank(node.peers, node.id)),
        node.peers.filter(above(node.id)) == node.peers.skip(rank(node.peers, node.id)),
        node.lower() + node.higher() == node.ids(),
        forall|i: int| 0 <= i < node.lower().len() ==> #[trigger] node.lower()[i] < node.id,
        forall|i: int| 0 <= i < node.higher().len() ==> #[trigger] node.higher()[i] > node.id,
{
    let k = rank(node.peers, node.id);
    lemma_rank(node.peers, node.id);
    assert forall|j: int| k <= j < node.peers.len() implies (#[trigger] node.peers[j]).id
        > node.id by {
        if node.peers[j].id == node.id {
            assert(has_id(node.peers, node.id));
        }
    }
    lemma_ascending_parts(node.peers, node.id, k, k);
    assert(node.lower() + node.higher() =~= node.ids());
    assert forall|i: int| 0 <= i < node.lower().len() implies #[trigger] node.lower()[i]
        < node.id by {
        assert(node.lower()[i] == node.peers[i].id);
    }
    assert forall|i: int| 0 <= i < node.higher().len() implies #[trigger] node.higher()[i]
        > node.id by {
        assert(node.higher()[i] == node.peers[k + i].id);
    }
}

/// An election asks the peers above the node one after the other in the
/// order of their ids: after one that did not stop it, the next.
pub proof fn lemma_probes_ascend(node: NodeView, i: int)
    requires
        node.wf(),
        0 <= i < node.higher().len(),
    ensures
        node.first_step() == ElectionStep::Probe(node.higher()[0]),
        node.step_after(node.higher()[i], true) == ElectionStep::Done(ElectionResult::Fail),
        node.step_after(node.higher()[i], false) == if i + 1 < node.higher().len() {
            ElectionStep::Probe(node.higher()[i + 1])
        } else {
            ElectionStep::Done(ElectionResult::Win)
        },
{
    lemma_lower_and_higher(node);
    let k = rank(node.peers, node.id);
    let j = k + i;
    let p = node.peers[j].id;
    assert(node.higher()[i] == p);
    assert(node.higher()[0] == node.peers[k].id);
    assert(node.peers.skip(k)[0] == node.peers[k]);
    lemma_rank(node.peers, node.id);
    assert(p > node.id) by {
        if p == node.id {
            assert(has_id(node.peers, node.id));
        }
    }
    lemma_ascending_parts(node.peers, p, j, j + 1);
    if i + 1 < node.higher().len() {
        assert(node.peers.skip(j + 1)[0] == node.peers[j + 1]);
        assert(node.higher()[i + 1] == node.peers[j + 1].id);
    }
}

/// A node with no peer above it wins its election without asking.
pub proof fn lemma_no_higher_peer(node: NodeView)
    requires
        node.wf(),
        node.higher().len() == 0,
    ensures
        node.first_step() == ElectionStep::Done(ElectionResult::Win),
{
}

proof fn lemma_election_from(node: NodeView, alive: Set<u8>, i: int)
    requires
        node.wf(),
        0 <= i < node.higher().len(),
    ensures
        election_from(node, ElectionStep::Probe(node.higher()[i]), alive) == ElectionResult::Fail
            <==> exists|m: int| i <= m < node.higher().len() && alive.contains(node.higher()[m]),
    decreases node.higher().len() - i,
{
    lemma_probes_ascend(node, i);
    let p = node.higher()[i];
    if alive.contains(p) {
        assert(election_from(node, ElectionStep::Done(ElectionResult::Fail), alive)
            == ElectionResult::Fail);
    } else if i + 1 < node.higher().len() {
        lemma_election_from(node, alive, i + 1);
        if exists|m: int| i <= m < node.higher().len() && alive.contains(node.higher()[m]) {
            let m = choose|m: int| i <= m < node.higher().len() && alive.contains(node.higher()[m]);
            assert(i + 1 <= m);
        }
    } else {
        assert(election_from(node, ElectionStep::Done(ElectionResult::Win), alive)
            == ElectionResult::Win);
    }
}

/// An election is lost if and only if one of the peers above the node
/// answers; it is won if and only if none does.
pub proof fn lemma_election_result(node: NodeView, alive: Set<u8>)
    requires
        node.wf(),
    ensures
        election(node, alive) == ElectionResult::Fail <==> exists|m: int|
            0 <= m < node.higher().len() && alive.contains(node.higher()[m]),
        election(node, alive) == ElectionResult::Win <==> forall|m: int|
            0 <= m < node.higher().len() ==> !alive.contains(node.higher()[m]),
{
    if node.higher().len() > 0 {
        lemma_probes_ascend(node, 0);
        lemma_election_from(node, alive, 0);
    } else {
        assert(election_from(node, ElectionStep::Done(ElectionResult::Win), alive)
            == ElectionResult::Win);
    }
}

proof fn lemma_vetoer_from(node: NodeView, alive: Set<u8>, i: int)
    requires
        node.wf(),
        0 <= i < node.higher().len(),
    ensures
        match vetoer_from(node, ElectionStep::Probe(node.higher()[i]), alive) {
            Some(v) => alive.contains(v) && (exists|m: int|
                i <= m < node.higher().len() && node.higher()[m] == v) && election_from(
                node,
                ElectionStep::Probe(node.higher()[i]),
                alive,
            ) == ElectionResult::Fail,
            None => election_from(node, ElectionStep::Probe(node.higher()[i]), alive)
                == ElectionResult::Win,
        },
    decreases node.higher().len() - i,
{
    lemma_probes_ascend(node, i);
    let p = node.higher()[i];
    if alive.contains(p) {
        assert(election_from(node, ElectionStep::Done(ElectionResult::Fail), alive)
            == ElectionResult::Fail);
    } else if i + 1 < node.higher().len() {
        lemma_vetoer_from(node, alive, i + 1);
        if let Some(v) = vetoer_from(node, ElectionStep::Probe(node.higher()[i + 1]), alive) {
            let m = choose|m: int| i + 1 <= m < node.higher().len() && node.higher()[m] == v;
            assert(i <= m < node.higher().len() && node.higher()[m] == v);
        }
    } else {
        assert(vetoer_from(node, ElectionStep::Done(ElectionResult::Win), alive) is None);
        assert(election_from(node, ElectionStep::Done(ElectionResult::Win), alive)
            == ElectionResult::Win);
    }
}

/// An election is lost to the peer that stops it: a peer of the node that
/// is alive and has a higher id, which the node's `Elect` wakes to an
/// election of its own. An election that nobody stops is won.
pub proof fn lemma_vetoer(node: NodeView, alive: Set<u8>)
    requires
        node.wf(),
    ensures
        match vetoer(node, alive) {
            Some(v) => election(node, alive) == ElectionResult::Fail && alive.contains(v) && v
                > node.id && has_id(node.peers, v),
            None => election(node, alive) == ElectionResult::Win,
        },
        forall|peer: NodeView|
            vetoer(node, alive) == Some(peer.id) ==> (#[trigger] peer.reaction_to(
                elect_of(node.id),
            )).elect,
{
    lemma_lower_and_higher(node);
    if node.higher().len() > 0 {
        lemma_probes_ascend(node, 0);
        lemma_vetoer_from(node, alive, 0);
        if let Some(v) = vetoer(node, alive) {
            let m = choose|m: int| 0 <= m < node.higher().len() && node.higher()[m] == v;
            let k = rank(node.peers, node.id);
            assert(node.peers[k + m].id == v);
        }
    } else {
        assert(vetoer_from(node, ElectionStep::Done(ElectionResult::Win), alive) is None);
        assert(election_from(node, ElectionStep::Done(ElectionResult::Win), alive)
            == ElectionResult::Win);
    }
}

/// A peer with a higher id that is alive and can be reached stops the
/// election of a node: the node's election fails.
pub proof fn lemma_veto(node: NodeView, alive: Set<u8>, bullier: u8)
    requires
        node.wf(),
        has_id(node.peers, bullier),
        bullier > node.id,
        alive.contains(bullier),
    ensures
        election(node, alive) == ElectionResult::Fail,
        node.after_election(election(node, alive)) == node,
{
    lemma_election_result(node, alive);
    lemma_lower_and_higher(node);
    let k = rank(node.peers, node.id);
    lemma_rank(node.peers, node.id);
    let j = choose|j: int| 0 <= j < node.peers.len() && node.peers[j].id == bullier;
    assert(j >= k);
    assert(node.higher()[j - k] == bullier);
}

/// A peer that gets an `Elect` writes back the frame of `Alive`, and the node
/// that reads this frame on the stream of its `Elect` takes it for the
/// peer's `Alive`: the election of the node stops there.
pub proof fn lemma_alive_is_observed(node: NodeView, peer: NodeView, line: String)
    requires
        line@ == frame_text(Message { message_type: MessageType::Alive, sender_id: peer.id }),
    ensures
        peer.reaction_to(Message { message_type: MessageType::Elect, sender_id: node.id }).reply
            == Some(Message { message_type: MessageType::Alive, sender_id: peer.id }),
        reply_to_elect(ReadOutcome::Line(line)) == Ok::<ElectResponse, ErrorView>(
            ElectResponse::BullierAlive,
        ),
        node.step_after(peer.id, vetoes(Ok(ElectResponse::BullierAlive))) == ElectionStep::Done(
            ElectionResult::Fail,
        ),
{
    lemma_codec_round_trip(Message { message_type: MessageType::Alive, sender_id: peer.id });
}

/// Of two victories the later one decides the leader, whichever of the two
/// ids is higher.
pub proof fn lemma_last_victory_decides(node: NodeView, x: u8, y: u8, first: u128, then: u128)
    ensures
        node.after_message(victory_of(x), first).after_message(victory_of(y), then).leader == Some(
            y,
        ),
{
}

/// A heartbeat or a victory that comes twice leaves the node as it was after
/// the first.
pub proof fn lemma_message_twice(node: NodeView, m: Message, now: u128)
    ensures
        node.after_message(m, now).after_message(m, now) == node.after_message(m, now),
{
}

/// A message changes nothing of a node but its leader and the time of the
/// leader's last heartbeat.
pub proof fn lemma_message_keeps_roster(node: NodeView, m: Message, now: u128)
    ensures
        node.after_message(m, now).id == node.id,
        node.after_message(m, now).peers == node.peers,
        node.after_message(m, now).advertise_address == node.advertise_address,
        node.wf() ==> node.after_message(m, now).wf(),
{
}

/// Nothing that happens to a node changes who it is or whom it knows, so the
/// peers stay in the order of their ids and the node stays out of them.
pub proof fn lemma_roster_is_kept(
    node: NodeView,
    m: Message,
    now: u128,
    result: ElectionResult,
    peer_id: u8,
)
    requires
        node.wf(),
    ensures
        node.after_message(m, now).wf(),
        node.after_leader_check(now).wf(),
        node.after_election(result).wf(),
        node.connected_to(peer_id).wf(),
        node.after_message(m, now).ids() == node.ids(),
        node.after_leader_check(now).ids() == node.ids(),
        node.after_election(result).ids() == node.ids(),
        node.connected_to(peer_id).ids() == node.ids(),
{
    let after = node.connected_to(peer_id);
    assert(after.ids() =~= node.ids());
    assert forall|i: int| 0 <= i < after.peers.len() implies #[trigger] after.peers[i].id
        == node.peers[i].id by {}
    if has_id(after.peers, after.id) {
        let i = choose|i: int| 0 <= i < after.peers.len() && after.peers[i].id == after.id;
        assert(node.peers[i].id == node.id);
    }
}

/// After a check of the leader that found the clock in order, a node that
/// holds a leader has either had no heartbeat yet or had the last one no
/// longer than `LEADER_CHECK_INTERVAL` ago.
pub proof fn lemma_leader_is_fresh_after_check(node: NodeView, now: u128)
    requires
        !node.clock_went_backwards(now),
    ensures
        node.after_leader_check(now).leader is Some ==> match node.after_leader_check(
            now,
        ).last_leader_heartbeat {
            None => true,
            Some(last) => last <= now && now - last <= LEADER_CHECK_INTERVAL * NANOS_PER_SEC,
        },
        node.leader_is_lost(now) ==> node.after_leader_check(now).leader is None
            && node.after_leader_check(now).last_leader_heartbeat is None,
        !node.leader_is_lost(now) ==> node.after_leader_check(now) == node,
{
}

/// Heartbeats go from a leader to peers with lower ids and to them only: to
/// each peer below the leader, and to nobody from a node that does not lead.
pub proof fn lemma_heartbeat_recipients(node: NodeView)
    requires
        node.wf(),
    ensures
        forall|i: int|
            0 <= i < node.heartbeat_recipients().len() ==> #[trigger] node.heartbeat_recipients()[i]
                < node.id && node.is_leader(),
        forall|id: u8|
            node.heartbeat_recipients().contains(id) <==> node.is_leader() && id < node.id
                && has_id(node.peers, id),
{
    lemma_lower_and_higher(node);
    let k = rank(node.peers, node.id);
    assert forall|id: u8|
        node.heartbeat_recipients().contains(id) <==> node.is_leader() && id < node.id && has_id(
            node.peers,
            id,
        ) by {
        lemma_lower_members(node, id);
    }
}

/// The peers below a node are the peers with a lower id.
pub proof fn lemma_lower_members(node: NodeView, id: u8)
    requires
        node.wf(),
    ensures
        node.lower().contains(id) <==> id < node.id && has_id(node.peers, id),
{
    lemma_lower_and_higher(node);
    let k = rank(node.peers, node.id);
    lemma_rank(node.peers, node.id);
    if node.lower().contains(id) {
        let i = choose|i: int| 0 <= i < node.lower().len() && node.lower()[i] == id;
        assert(node.peers[i].id == id);
    }
    if id < node.id && has_id(node.peers, id) {
        let j = choose|j: int| 0 <= j < node.peers.len() && node.peers[j].id == id;
        assert(j < k);
        assert(node.lower()[j] == id);
    }
}

/// Whichever live node opens an election, the elections that follow from it
/// end with the victory of the highest live node: among nodes that know
/// each other, each election but the highest node's is stopped by a live
/// peer with a higher id, which then opens its own.
pub proof fn lemma_elections_end_with_the_highest(
    nodes: Map<u8, NodeView>,
    alive: Set<u8>,
    top: u8,
    id: u8,
)
    requires
        meshed(nodes, alive),
        alive.contains(top),
        forall|a: u8| alive.contains(a) ==> a <= top,
        alive.contains(id),
    ensures
        last_winner(nodes, alive, id) == top,
        election(nodes[top], alive) == ElectionResult::Win,
        id != top ==> election(nodes[id], alive) == ElectionResult::Fail,
    decreases top - id,
{
    lemma_vetoer(nodes[top], alive);
    lemma_vetoer(nodes[id], alive);
    if id != top {
        assert(alive.contains(top) && top != id);
        lemma_veto(nodes[id], alive, top);
        let v = vetoer(nodes[id], alive)->0;
        lemma_elections_end_with_the_highest(nodes, alive, top, v);
    }
}

/// Where the highest of the live nodes runs an election, every live node
/// comes to hold it for the leader. The node `top` has the highest id among
/// the nodes in `alive`, and `other` is any other of them, each a peer of
/// the other. Then `top` wins its election and `other` loses its own; `top`
/// becomes its own leader and sends its victory to `other`, and `other`
/// takes `top` for the leader when the victory arrives.
pub proof fn lemma_highest_live_node_leads(
    top: NodeView,
    other: NodeView,
    alive: Set<u8>,
    now: u128,
)
    requires
        top.wf(),
        other.wf(),
        alive.contains(top.id),
        alive.contains(other.id),
        forall|id: u8| alive.contains(id) ==> id <= top.id,
        other.id != top.id,
        has_id(top.peers, other.id),
        has_id(other.peers, top.id),
    ensures
        election(top, alive) == ElectionResult::Win,
        election(other, alive) == ElectionResult::Fail,
        top.after_election(election(top, alive)).leader == Some(top.id),
        top.victory_recipients(election(top, alive)).contains(other.id),
        other.after_election(election(other, alive)).after_message(victory_of(top.id), now).leader
            == Some(top.id),
{
    lemma_election_result(top, alive);
    lemma_lower_and_higher(top);
    lemma_veto(other, alive, top.id);
    lemma_lower_members(top, other.id);
}

} // verus!
