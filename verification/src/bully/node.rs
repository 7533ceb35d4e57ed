//! The state of a node and what it does when a frame arrives or a timer
//! fires.
//!
//! A node never reads a socket or a clock. Its caller hands it the message
//! that came and the time of day, and gets back what to send and whether to
//! open an election. An election is run by the caller one peer at a time:
//! the node says whom to ask next, the caller asks and reports the answer.

use crate::bully::address::{parse_address, Address};
use crate::bully::consts::{LEADER_CHECK_INTERVAL, NANOS_PER_SEC};
use crate::bully::roster::{
    above, ascending, below, has_id, ids_of, lemma_ascending_parts, lemma_collect_peers_ascending,
    lemma_rank, parse_peer_opt, parse_peers, position, Peer,
};
use crate::text::split;
use crate::error::{failure, ErrorKind, LeaderElectError};
use crate::message::{frame_text, send_message, ElectResponse, Message, MessageType};
use vstd::prelude::*;

verus! {

/// The configuration of a node, as its caller read it.
#[derive(Debug, Clone, PartialEq, Eq)]
pub struct Opts {
    /// The id of this node.
    pub id: u8,
    /// The peers: `id=a.b.c.d:port,id=a.b.c.d:port,...`.
    pub peers: String,
    /// The address at which the peers reach this node: `a.b.c.d:port`.
    pub advertise_address: String,
    /// How much the node logs.
    pub log_level: String,
}

/// How an election ended for the node that ran it.
#[derive(Debug, PartialEq, Eq, Structural, Clone, Copy)]
pub enum ElectionResult {
    /// No peer with a higher id answered: the node is the leader.
    Win,
    /// A peer with a higher id answered: that peer takes over.
    Fail,
}

/// What a node that runs an election does next.
#[derive(Debug, PartialEq, Eq, Structural, Clone, Copy)]
pub enum ElectionStep {
    /// Send `Elect` to this peer and report what came back.
    Probe(u8),
    /// The election is over.
    Done(ElectionResult),
}

/// What a node does about a message that it received.
#[derive(Debug, PartialEq, Eq, Clone, Copy)]
pub struct Reaction {
    /// The message to send back on the stream that the message came on.
    pub reply: Option<Message>,
    /// Whether the node now opens an election of its own.
    pub elect: bool,
}

/// A node: who it is, whom it knows, and whom it holds for the leader.
#[derive(Debug)]
pub struct Node {
    id: u8,
    advertise_address: Address,
    peers: Vec<Peer>,
    leader: Option<u8>,
    last_leader_heartbeat: Option<u128>,
}

/// What a [`Node`] holds, as plain values. Times are in nanoseconds since the
/// start of 1970.
pub struct NodeView {
    pub id: u8,
    pub advertise_address: Address,
    pub peers: Seq<Peer>,
    pub leader: Option<u8>,
    pub last_leader_heartbeat: Option<u128>,
}

impl NodeView {
    /// The peers stand in the order of their ids, no id twice, and the node
    /// is not its own peer.
    pub open spec fn wf(self) -> bool {
        ascending(self.peers) && !has_id(self.peers, self.id)
    }

    /// The ids of the peers, in ascending order.
    pub open spec fn ids(self) -> Seq<u8> {
        ids_of(self.peers)
    }

    /// The ids of the peers below this node, in ascending order.
    pub open spec fn lower(self) -> Seq<u8> {
        ids_of(self.peers.filter(below(self.id)))
    }

    /// The ids of the peers above this node, in ascending order.
    pub open spec fn higher(self) -> Seq<u8> {
        ids_of(self.peers.filter(above(self.id)))
    }

    pub open spec fn is_leader(self) -> bool {
        self.leader == Some(self.id)
    }

    /// The node holds an outbound connection to the peer `peer_id`.
    pub open spec fn reaches(self, peer_id: u8) -> bool {
        exists|i: int|
            0 <= i < self.peers.len() && self.peers[i].id == peer_id && self.peers[i].connected
    }

    /// The node once its connection to the peer `peer_id` stands.
    pub open spec fn connected_to(self, peer_id: u8) -> NodeView {
        NodeView {
            peers: self.peers.map_values(
                |p: Peer|
                    if p.id == peer_id {
                        Peer { connected: true, ..p }
                    } else {
                        p
                    },
            ),
            ..self
        }
    }

    /// The node once it has taken `leader` for the leader at the time `now`.
    pub open spec fn following(self, leader: u8, now: u128) -> NodeView {
        NodeView { leader: Some(leader), last_leader_heartbeat: Some(now), ..self }
    }

    /// The node after the message `m` came at the time `now`. A heartbeat and
    /// a victory make their sender the leader, whatever its id.
    pub open spec fn after_message(self, m: Message, now: u128) -> NodeView {
        match m.message_type {
            MessageType::HeartBeat | MessageType::Victory => self.following(m.sender_id, now),
            MessageType::Elect | MessageType::Alive => self,
        }
    }

    /// What the node does about the message `m`: it answers `Elect` with
    /// `Alive`, and opens its own election where the sender's id is lower.
    pub open spec fn reaction_to(self, m: Message) -> Reaction {
        match m.message_type {
            MessageType::Elect => Reaction {
                reply: Some(Message { message_type: MessageType::Alive, sender_id: self.id }),
                elect: m.sender_id < self.id,
            },
            _ => Reaction { reply: None, elect: false },
        }
    }

    /// The clock reads earlier than the last heartbeat.
    pub open spec fn clock_went_backwards(self, now: u128) -> bool {
        self.last_leader_heartbeat matches Some(last) && now < last
    }

    /// A heartbeat has come, and the last one is older than
    /// `LEADER_CHECK_INTERVAL`.
    pub open spec fn leader_is_lost(self, now: u128) -> bool {
        self.last_leader_heartbeat matches Some(last) && now - last > LEADER_CHECK_INTERVAL
            * NANOS_PER_SEC
    }

    /// The node after a check of its leader at the time `now`: a lost leader
    /// is forgotten, and its last heartbeat with it.
    pub open spec fn after_leader_check(self, now: u128) -> NodeView {
        if self.leader_is_lost(now) {
            NodeView { leader: None, last_leader_heartbeat: None, ..self }
        } else {
            self
        }
    }

    /// The first peer to ask whose id is above `bound` and above the node's
    /// own; the election is won where there is none.
    pub open spec fn probe_above(self, bound: u8) -> ElectionStep {
        let rest = self.peers.filter(
            above(
                if bound > self.id {
                    bound
                } else {
                    self.id
                },
            ),
        );
        if rest.len() > 0 {
            ElectionStep::Probe(rest[0].id)
        } else {
            ElectionStep::Done(ElectionResult::Win)
        }
    }

    /// How an election starts: with the lowest peer above the node.
    pub open spec fn first_step(self) -> ElectionStep {
        self.probe_above(self.id)
    }

    /// How an election goes on after the peer `probed` was asked: it is lost
    /// where the peer answered `Alive`, else the next peer is asked.
    pub open spec fn step_after(self, probed: u8, vetoed: bool) -> ElectionStep {
        if vetoed {
            ElectionStep::Done(ElectionResult::Fail)
        } else {
            self.probe_above(probed)
        }
    }

    /// The node after its election ended: the winner is its own leader.
    pub open spec fn after_election(self, result: ElectionResult) -> NodeView {
        match result {
            ElectionResult::Win => NodeView { leader: Some(self.id), ..self },
            ElectionResult::Fail => self,
        }
    }

    /// The peers that a victory goes to after an election that ended in
    /// `result`.
    pub open spec fn victory_recipients(self, result: ElectionResult) -> Seq<u8> {
        match result {
            ElectionResult::Win => self.lower(),
            ElectionResult::Fail => Seq::empty(),
        }
    }

    /// The peers that a heartbeat goes to: those below a leader, none for a
    /// node that is not the leader.
    pub open spec fn heartbeat_recipients(self) -> Seq<u8> {
        if self.is_leader() {
            self.lower()
        } else {
            Seq::empty()
        }
    }
}

/// Whether the answer to an `Elect` stops the election: only `Alive` does. A
/// peer that could not be asked counts as one that did not answer.
pub open spec fn vetoes(response: Result<ElectResponse, LeaderElectError>) -> bool {
    response matches Ok(ElectResponse::BullierAlive)
}

/// The node that a configuration describes. It knows no leader yet.
pub open spec fn configure(id: u8, peer_str: Seq<char>, advertise_address: Seq<char>) -> Result<
    NodeView,
    ErrorKind,
> {
    match parse_address(advertise_address) {
        None => Err(ErrorKind::InvalidAddress),
        Some(address) => match parse_peers(peer_str) {
            Err(kind) => Err(kind),
            Ok(peers) => if has_id(peers, id) {
                Err(ErrorKind::SelfAmongPeers)
            } else {
                Ok(
                    NodeView {
                        id,
                        advertise_address: address,
                        peers,
                        leader: None,
                        last_leader_heartbeat: None,
                    },
                )
            },
        },
    }
}

/// A configuration that is accepted describes a node whose peers stand in
/// the order of their ids, no id twice, and which is not its own peer.
pub proof fn lemma_configure_wf(id: u8, peer_str: Seq<char>, advertise_address: Seq<char>)
    ensures
        configure(id, peer_str, advertise_address) matches Ok(node) ==> node.wf() && node.id == id
            && node.leader is None && node.last_leader_heartbeat is None,
{
    lemma_collect_peers_ascending(split(peer_str, ','));
}

/// The ids of `peers[lo..hi]`.
fn ids_in(peers: &Vec<Peer>, lo: usize, hi: usize) -> (ids: Vec<u8>)
    requires
        lo <= hi <= peers.len(),
    ensures
        ids@ == ids_of(peers@.subrange(lo as int, hi as int)),
{
    let mut ids: Vec<u8> = Vec::new();
    let mut i: usize = lo;
    while i < hi
        invariant
            lo <= i <= hi <= peers.len(),
            ids@ == ids_of(peers@.subrange(lo as int, i as int)),
        decreases hi - i,
    {
        ids.push(peers[i].id);
        assert(peers@.subrange(lo as int, i + 1) == peers@.subrange(lo as int, i as int).push(
            peers@[i as int],
        ));
        i += 1;
    }
    ids
}

/// The same peers in a list of their own.
fn copy_of(peers: &Vec<Peer>) -> (copy: Vec<Peer>)
    ensures
        copy@ == peers@,
{
    let mut copy: Vec<Peer> = Vec::new();
    let mut i: usize = 0;
    while i < peers.len()
        invariant
            i <= peers.len(),
            copy@ == peers@.take(i as int),
        decreases peers.len() - i,
    {
        copy.push(peers[i]);
        assert(peers@.take(i + 1) == peers@.take(i as int).push(peers@[i as int]));
        i += 1;
    }
    assert(peers@.take(peers@.len() as int) == peers@);
    copy
}

impl View for Node {
    type V = NodeView;

    closed spec fn view(&self) -> NodeView {
        NodeView {
            id: self.id,
            advertise_address: self.advertise_address,
            peers: self.peers@,
            leader: self.leader,
            last_leader_heartbeat: self.last_leader_heartbeat,
        }
    }
}

impl Node {
    #[verifier::type_invariant]
    spec fn well_formed(self) -> bool {
        ascending(self.peers@) && !has_id(self.peers@, self.id)
    }

    /// A node with the id `id` that listens at `advertise_address` and knows
    /// the peers of `peer_str`. The address is read first, then the peers.
    pub fn new(id: u8, peer_str: &str, advertise_address: &str) -> (r: Result<
        Node,
        LeaderElectError,
    >)
        ensures
            match r {
                Ok(node) => configure(id, peer_str@, advertise_address@) == Ok::<
                    NodeView,
                    ErrorKind,
                >(node@) && node@.wf(),
                Err(e) => configure(id, peer_str@, advertise_address@) == Err::<
                    NodeView,
                    ErrorKind,
                >(e@.kind) && e@ == failure(e@.kind),
            },
    {
        let address = match Address::parse(advertise_address) {
            Ok(address) => address,
            Err(e) => {
                return Err(e);
            },
        };
        let peers = match parse_peer_opt(peer_str) {
            Ok(peers) => peers,
            Err(e) => {
                return Err(e);
            },
        };
        let k = position(&peers, id);
        proof {
            lemma_rank(peers@, id);
        }
        if k < peers.len() && peers[k].id == id {
            return Err(LeaderElectError::of(ErrorKind::SelfAmongPeers));
        }
        Ok(
            Node {
                id,
                advertise_address: address,
                peers,
                leader: None,
                last_leader_heartbeat: None,
            },
        )
    }

    /// The node that the configuration `opts` describes.
    pub fn from_opts(opts: &Opts) -> (r: Result<Node, LeaderElectError>)
        ensures
            match r {
                Ok(node) => configure(opts.id, opts.peers@, opts.advertise_address@) == Ok::<
                    NodeView,
                    ErrorKind,
                >(node@) && node@.wf(),
                Err(e) => configure(opts.id, opts.peers@, opts.advertise_address@) == Err::<
                    NodeView,
                    ErrorKind,
                >(e@.kind) && e@ == failure(e@.kind),
            },
    {
        Node::new(opts.id, opts.peers.as_str(), opts.advertise_address.as_str())
    }

    pub fn id(&self) -> (id: u8)
        ensures
            id == self@.id,
            self@.wf(),
    {
        proof {
            use_type_invariant(self);
        }
        self.id
    }

    pub fn advertise_address(&self) -> (address: Address)
        ensures
            address == self@.advertise_address,
    {
        self.advertise_address
    }

    /// The peer that the node holds for the leader; itself, where it leads.
    pub fn leader(&self) -> (leader: Option<u8>)
        ensures
            leader == self@.leader,
    {
        self.leader
    }

    /// When the leader was last heard of.
    pub fn last_leader_heartbeat(&self) -> (last: Option<u128>)
        ensures
            last == self@.last_leader_heartbeat,
    {
        self.last_leader_heartbeat
    }

    /// The peers, in the order of their ids.
    pub fn peers(&self) -> (peers: Vec<Peer>)
        ensures
            peers@ == self@.peers,
    {
        copy_of(&self.peers)
    }

    /// The ids of the peers above this node, in ascending order: those that
    /// an election asks.
    pub fn bulliers(&self) -> (ids: Vec<u8>)
        ensures
            ids@ == self@.higher(),
    {
        proof {
            use_type_invariant(self);
        }
        let k = position(&self.peers, self.id);
        proof {
            lemma_rank(self.peers@, self.id);
            assert forall|j: int| k <= j < self.peers@.len() implies (#[trigger] self.peers@[j]).id
                > self.id by {
                if self.peers@[j].id == self.id {
                    assert(has_id(self.peers@, self.id));
                }
            }
            lemma_ascending_parts(self.peers@, self.id, k as int, k as int);
            assert(self.peers@.subrange(k as int, self.peers@.len() as int) == self.peers@.skip(
                k as int,
            ));
        }
        ids_in(&self.peers, k, self.peers.len())
    }

    /// Takes note that the outbound connection to the peer `peer_id` stands.
    /// Says whether there is such a peer.
    pub fn set_connected(&mut self, peer_id: u8) -> (known: bool)
        ensures
            known == has_id(old(self)@.peers, peer_id),
            final(self)@ == old(self)@.connected_to(peer_id),
            known ==> final(self)@.reaches(peer_id),
    {
        proof {
            use_type_invariant(&*self);
        }
        let k = position(&self.peers, peer_id);
        proof {
            lemma_rank(self.peers@, peer_id);
        }
        let ghost before = self.peers@;
        let known = k < self.peers.len() && self.peers[k].id == peer_id;
        if known {
            let peer = self.peers[k];
            let mut peers = copy_of(&self.peers);
            peers.set(k, Peer { connected: true, ..peer });
            self.peers = peers;
            assert(self.peers@[k as int].id == peer_id && self.peers@[k as int].connected);
        }
        proof {
            let after = old(self)@.connected_to(peer_id).peers;
            assert(self.peers@.len() == after.len());
            assert forall|i: int| 0 <= i < after.len() implies self.peers@[i] == after[i] by {
                if before[i].id == peer_id {
                    assert(has_id(before, peer_id));
                    assert(i == k);
                }
            }
            assert(self.peers@ == after);
            assert(forall|i: int| 0 <= i < before.len() ==> self.peers@[i].id == before[i].id);
            if has_id(self.peers@, self.id) {
                let i = choose|i: int| 0 <= i < self.peers@.len() && self.peers@[i].id == self.id;
                assert(before[i].id == self.id);
                assert(has_id(before, self.id));
            }
        }
        known
    }

    /// The frame that carries a message of the type `message_type` from this
    /// node to the peer `peer_id`, for the caller to write to the peer's
    /// outbound stream in full. It fails where no connection to such a peer
    /// stands.
    pub fn send(&self, peer_id: u8, message_type: MessageType) -> (r: Result<
        String,
        LeaderElectError,
    >)
        ensures
            match r {
                Ok(frame) => self@.reaches(peer_id) && frame@ == frame_text(
                    Message { message_type, sender_id: self@.id },
                ),
                Err(e) => !self@.reaches(peer_id) && e@ == failure(ErrorKind::ConnectionMissing),
            },
    {
        proof {
            use_type_invariant(self);
        }
        let k = position(&self.peers, peer_id);
        proof {
            lemma_rank(self.peers@, peer_id);
        }
        if k < self.peers.len() && self.peers[k].id == peer_id && self.peers[k].connected {
            let mut frame = String::new();
            send_message(Message::new(self.id, message_type), &mut frame);
            assert(frame@ == frame_text(Message { message_type, sender_id: self@.id }));
            assert(self@.peers[k as int].id == peer_id && self@.peers[k as int].connected);
            Ok(frame)
        } else {
            proof {
                if self@.reaches(peer_id) {
                    let i = choose|i: int|
                        0 <= i < self.peers@.len() && self.peers@[i].id == peer_id
                            && self.peers@[i].connected;
                    assert(has_id(self.peers@, peer_id));
                    assert(i == k);
                }
            }
            Err(LeaderElectError::of(ErrorKind::ConnectionMissing))
        }
    }

    /// Takes in a message that came from a peer at the time `now`, and says
    /// what to do about it.
    pub fn handle_message(&mut self, msg: Message, now: u128) -> (reaction: Reaction)
        ensures
            final(self)@ == old(self)@.after_message(msg, now),
            reaction == old(self)@.reaction_to(msg),
    {
        proof {
            use_type_invariant(&*self);
        }
        match msg.message_type {
            MessageType::HeartBeat | MessageType::Victory => {
                self.leader = Some(msg.sender_id);
                self.last_leader_heartbeat = Some(now);
                Reaction { reply: None, elect: false }
            },
            MessageType::Elect => Reaction {
                reply: Some(Message::new(self.id, MessageType::Alive)),
                elect: msg.sender_id < self.id,
            },
            MessageType::Alive => Reaction { reply: None, elect: false },
        }
    }

    /// Checks at the time `now` whether the leader is still heard of, and
    /// says whether the node now opens an election. A node that has not had
    /// a heartbeat yet waits. It is an error, and changes nothing, where the
    /// clock reads earlier than the last heartbeat.
    pub fn check_leader(&mut self, now: u128) -> (r: Result<bool, LeaderElectError>)
        ensures
            r is Err <==> old(self)@.clock_went_backwards(now),
            match r {
                Ok(elect) => elect == old(self)@.leader_is_lost(now) && final(self)@ == old(
                    self,
                )@.after_leader_check(now),
                Err(e) => e@ == failure(ErrorKind::ClockWentBackwards) && final(self)@ == old(
                    self,
                )@,
            },
    {
        proof {
            use_type_invariant(&*self);
        }
        match self.last_leader_heartbeat {
            None => Ok(false),
            Some(last) => {
                if now < last {
                    Err(LeaderElectError::of(ErrorKind::ClockWentBackwards))
                } else if now - last > (LEADER_CHECK_INTERVAL as u128) * NANOS_PER_SEC {
                    self.leader = None;
                    self.last_leader_heartbeat = None;
                    Ok(true)
                } else {
                    Ok(false)
                }
            },
        }
    }

    /// The peers to send `Victory` to: those below this node, in ascending
    /// order.
    pub fn announce_victory(&self) -> (recipients: Vec<u8>)
        ensures
            recipients@ == self@.lower(),
    {
        proof {
            use_type_invariant(self);
        }
        let k = position(&self.peers, self.id);
        proof {
            lemma_rank(self.peers@, self.id);
            assert forall|j: int| k <= j < self.peers@.len() implies (#[trigger] self.peers@[j]).id
                > self.id by {
                if self.peers@[j].id == self.id {
                    assert(has_id(self.peers@, self.id));
                }
            }
            lemma_ascending_parts(self.peers@, self.id, k as int, k as int);
            assert(self.peers@.subrange(0, k as int) == self.peers@.take(k as int));
        }
        ids_in(&self.peers, 0, k)
    }

    /// The peers to send `HeartBeat` to at a tick of the heartbeat timer:
    /// those below this node where it is the leader, else none.
    pub fn heartbeat(&self) -> (recipients: Vec<u8>)
        ensures
            recipients@ == self@.heartbeat_recipients(),
    {
        match self.leader {
            Some(leader) => {
                if leader == self.id {
                    self.announce_victory()
                } else {
                    Vec::new()
                }
            },
            None => Vec::new(),
        }
    }

    /// The first peer whose id is above `bound` and above the node's own.
    fn probe(&self, bound: u8) -> (step: ElectionStep)
        ensures
            step == self@.probe_above(bound),
    {
        proof {
            use_type_invariant(self);
        }
        let floor = if bound > self.id {
            bound
        } else {
            self.id
        };
        let k = position(&self.peers, floor);
        proof {
            lemma_rank(self.peers@, floor);
        }
        let next = if k < self.peers.len() && self.peers[k].id == floor {
            k + 1
        } else {
            k
        };
        proof {
            lemma_ascending_parts(self.peers@, floor, k as int, next as int);
        }
        if next < self.peers.len() {
            ElectionStep::Probe(self.peers[next].id)
        } else {
            ElectionStep::Done(ElectionResult::Win)
        }
    }

    /// Opens an election: says which peer to ask first, or that the election
    /// is won at once because no peer has a higher id.
    pub fn elect(&self) -> (step: ElectionStep)
        ensures
            step == self@.first_step(),
    {
        self.probe(self.id)
    }

    /// Goes on with an election after the peer `probed` was asked and
    /// `response` came of it. An error counts as no answer.
    pub fn next_election_step(
        &self,
        probed: u8,
        response: &Result<ElectResponse, LeaderElectError>,
    ) -> (step: ElectionStep)
        ensures
            step == self@.step_after(probed, vetoes(*response)),
    {
        match response {
            Ok(ElectResponse::BullierAlive) => ElectionStep::Done(ElectionResult::Fail),
            _ => self.probe(probed),
        }
    }

    /// Ends an election. The winner becomes its own leader and gets the
    /// peers to send `Victory` to; the loser changes nothing.
    pub fn conclude_election(&mut self, result: ElectionResult) -> (recipients: Vec<u8>)
        ensures
            final(self)@ == old(self)@.after_election(result),
            recipients@ == old(self)@.victory_recipients(result),
    {
        proof {
            use_type_invariant(&*self);
        }
        match result {
            ElectionResult::Win => {
                self.leader = Some(self.id);
                self.announce_victory()
            },
            ElectionResult::Fail => Vec::new(),
        }
    }
}

} // verus!
