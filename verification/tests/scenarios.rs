use leader_elect::bully::connect::{ConnectDecision, ConnectOutcome, Dial};
use leader_elect::bully::node::{ElectionStep, Node};
use leader_elect::bully::probe::{elect_response, ReadOutcome};
use leader_elect::error::ErrorKind;
use leader_elect::message::{receive_message, send_message, str_to_message, MessageType};

const SECOND: u128 = 1_000_000_000;

/// Nodes that talk to each other through the text of their frames. A dead
/// node answers nothing and takes nothing in.
struct Cluster {
    nodes: Vec<Node>,
    alive: Vec<bool>,
    now: u128,
    sent: Vec<(u8, u8, MessageType)>,
}

impl Cluster {
    fn new(ids: &[u8]) -> Cluster {
        let mut nodes = Vec::new();
        for id in ids {
            let peers: Vec<String> = ids
                .iter()
                .filter(|p| *p != id)
                .map(|p| format!("{}=10.0.0.{}:7000", p, p))
                .collect();
            let mut node = Node::new(*id, &peers.join(","), &format!("10.0.0.{}:7000", id)).unwrap();
            for p in ids {
                if p != id {
                    let mut dial = Dial::new();
                    assert_eq!(dial.next(ConnectOutcome::Connected), ConnectDecision::Keep);
                    assert!(node.set_connected(*p));
                }
            }
            nodes.push(node);
        }
        Cluster { nodes, alive: vec![true; ids.len()], now: 1_000 * SECOND, sent: Vec::new() }
    }

    fn at(&self, id: u8) -> usize {
        self.nodes.iter().position(|n| n.id() == id).unwrap()
    }

    fn kill(&mut self, id: u8) {
        let i = self.at(id);
        self.alive[i] = false;
    }

    fn revive(&mut self, id: u8) {
        let i = self.at(id);
        self.alive[i] = true;
    }

    fn leader_of(&self, id: u8) -> Option<u8> {
        self.nodes[self.at(id)].leader()
    }

    /// Carries one frame from `from` to `to`. Gives what `to` wrote back, if
    /// it lives, and notes in `wake` that `to` opens an election.
    fn carry(&mut self, from: u8, to: u8, kind: MessageType, wake: &mut Vec<u8>) -> ReadOutcome {
        let frame = self.nodes[self.at(from)].send(to, kind).unwrap();
        self.sent.push((from, to, kind));
        let i = self.at(to);
        if !self.alive[i] {
            return ReadOutcome::TimedOut;
        }
        let message = receive_message(&frame).unwrap();
        assert_eq!(message.get_sender_id(), from);
        assert_eq!(message.get_message_type(), kind);
        let reaction = self.nodes[i].handle_message(message, self.now);
        if reaction.elect {
            wake.push(to);
        }
        match reaction.reply {
            Some(reply) => {
                let mut answer = String::new();
                send_message(reply, &mut answer);
                self.sent.push((to, from, reply.get_message_type()));
                ReadOutcome::Line(answer)
            }
            None => ReadOutcome::TimedOut,
        }
    }

    /// Runs the election of `id` to its end, then the elections that it woke.
    fn elect(&mut self, id: u8) {
        let mut wake = Vec::new();
        let mut step = self.nodes[self.at(id)].elect();
        loop {
            match step {
                ElectionStep::Probe(peer) => {
                    assert!(peer > id);
                    let outcome = self.carry(id, peer, MessageType::Elect, &mut wake);
                    let response = elect_response(outcome);
                    step = self.nodes[self.at(id)].next_election_step(peer, &response);
                }
                ElectionStep::Done(result) => {
                    let i = self.at(id);
                    let recipients = self.nodes[i].conclude_election(result);
                    for peer in recipients {
                        assert!(peer < id);
                        self.carry(id, peer, MessageType::Victory, &mut wake);
                    }
                    break;
                }
            }
        }
        for peer in wake {
            if peer != id {
                self.elect(peer);
            }
        }
    }

    /// The tick of the leader check at `id`.
    fn check(&mut self, id: u8) {
        let i = self.at(id);
        if self.alive[i] && self.nodes[i].check_leader(self.now).unwrap() {
            self.elect(id);
        }
    }

    /// The tick of the heartbeat timer at `id`.
    fn beat(&mut self, id: u8) {
        let i = self.at(id);
        if self.alive[i] {
            let mut wake = Vec::new();
            for peer in self.nodes[i].heartbeat() {
                self.carry(id, peer, MessageType::HeartBeat, &mut wake);
            }
            assert!(wake.is_empty());
        }
    }

    fn elects_sent_by(&self, id: u8) -> Vec<u8> {
        self.sent
            .iter()
            .filter(|(from, _, kind)| *from == id && *kind == MessageType::Elect)
            .map(|(_, to, _)| *to)
            .collect()
    }
}

#[test]
fn two_nodes_higher_wins_uncontested() {
    let mut c = Cluster::new(&[1, 2]);
    c.kill(2);
    c.elect(1);
    assert_eq!(c.leader_of(1), Some(1));
    assert_eq!(c.sent, vec![(1, 2, MessageType::Elect)]);
    c.revive(2);
    c.sent.clear();
    c.elect(2);
    assert_eq!(c.sent, vec![(2, 1, MessageType::Victory)]);
    assert_eq!(c.leader_of(1), Some(2));
    assert_eq!(c.leader_of(2), Some(2));
}

#[test]
fn three_nodes_leader_crash() {
    let mut c = Cluster::new(&[1, 2, 3]);
    c.elect(3);
    assert_eq!(c.leader_of(1), Some(3));
    assert_eq!(c.leader_of(2), Some(3));
    assert_eq!(c.leader_of(3), Some(3));
    c.now += 2 * SECOND;
    c.beat(3);
    c.kill(3);
    c.now += 3 * SECOND;
    c.check(2);
    c.check(1);
    assert_eq!(c.leader_of(1), Some(3));
    assert_eq!(c.leader_of(2), Some(3));
    c.now += 1;
    c.sent.clear();
    c.check(2);
    assert_eq!(c.sent, vec![(2, 3, MessageType::Elect), (2, 1, MessageType::Victory)]);
    c.check(1);
    assert_eq!(c.leader_of(1), Some(2));
    assert_eq!(c.leader_of(2), Some(2));
}

#[test]
fn three_nodes_leader_crash_lowest_notices_first() {
    let mut c = Cluster::new(&[1, 2, 3]);
    c.elect(3);
    c.kill(3);
    c.now += 3 * SECOND + 1;
    c.sent.clear();
    c.check(1);
    assert_eq!(
        c.sent,
        vec![
            (1, 2, MessageType::Elect),
            (2, 1, MessageType::Alive),
            (2, 3, MessageType::Elect),
            (2, 1, MessageType::Victory),
        ]
    );
    assert_eq!(c.leader_of(1), Some(2));
    assert_eq!(c.leader_of(2), Some(2));
    c.sent.clear();
    c.check(2);
    assert_eq!(c.elects_sent_by(2), vec![3]);
    assert_eq!(c.leader_of(1), Some(2));
    assert_eq!(c.leader_of(2), Some(2));
}

#[test]
fn concurrent_elections() {
    let mut c = Cluster::new(&[1, 2, 3, 4]);
    c.elect(4);
    for id in [1, 2, 3, 4] {
        assert_eq!(c.leader_of(id), Some(4));
    }
    c.kill(4);
    c.now += 3 * SECOND + 1;
    let (one, two) = (c.at(1), c.at(2));
    assert!(c.nodes[one].check_leader(c.now).unwrap());
    assert!(c.nodes[two].check_leader(c.now).unwrap());
    assert_eq!(c.leader_of(1), None);
    assert_eq!(c.leader_of(2), None);
    c.sent.clear();
    c.elect(1);
    c.elect(2);
    assert!(c.sent.contains(&(3, 1, MessageType::Victory)));
    assert!(c.sent.contains(&(3, 2, MessageType::Victory)));
    assert!(c.sent.contains(&(3, 4, MessageType::Elect)));
    assert!(c.sent.contains(&(3, 2, MessageType::Alive)));
    for id in [1, 2, 3] {
        assert_eq!(c.leader_of(id), Some(3));
    }
}

#[test]
fn lower_id_elect_to_higher_leader() {
    let mut c = Cluster::new(&[2, 3, 4, 5]);
    c.elect(5);
    for id in [2, 3, 4, 5] {
        assert_eq!(c.leader_of(id), Some(5));
    }
    c.sent.clear();
    let n = &c.nodes[c.at(2)];
    let step = n.elect();
    assert_eq!(step, ElectionStep::Probe(3));
    let mut wake = Vec::new();
    let outcome = c.carry(2, 3, MessageType::Elect, &mut wake);
    assert_eq!(outcome, ReadOutcome::Line("3:2\n".to_owned()));
    let response = elect_response(outcome);
    let i = c.at(2);
    let step = c.nodes[i].next_election_step(3, &response);
    assert_eq!(step, ElectionStep::Done(leader_elect::bully::node::ElectionResult::Fail));
    assert_eq!(c.nodes[i].conclude_election(leader_elect::bully::node::ElectionResult::Fail), Vec::<u8>::new());
    assert_eq!(c.leader_of(2), Some(5));
    assert_eq!(wake, vec![3]);
    c.elect(3);
    for id in [2, 3, 4, 5] {
        assert_eq!(c.leader_of(id), Some(5));
    }
    assert_eq!(c.elects_sent_by(2), vec![3]);
}

#[test]
fn lower_id_elect_run_to_the_end() {
    let mut c = Cluster::new(&[2, 3, 4, 5]);
    c.elect(5);
    c.sent.clear();
    c.elect(2);
    assert_eq!(c.elects_sent_by(2), vec![3]);
    assert_eq!(c.elects_sent_by(3), vec![4]);
    assert_eq!(c.elects_sent_by(4), vec![5]);
    assert_eq!(c.elects_sent_by(5), Vec::<u8>::new());
    for id in [2, 3, 4, 5] {
        assert_eq!(c.leader_of(id), Some(5));
    }
}

#[test]
fn malformed_frame_changes_nothing() {
    let mut c = Cluster::new(&[1, 2]);
    c.elect(2);
    let before = (c.leader_of(1), c.nodes[c.at(1)].last_leader_heartbeat());
    let e = receive_message("foo").unwrap_err();
    assert_eq!(e.kind(), ErrorKind::MalformedMessage);
    assert!(str_to_message("foo").is_err());
    assert_eq!((c.leader_of(1), c.nodes[c.at(1)].last_leader_heartbeat()), before);
    c.now += SECOND;
    c.beat(2);
    assert_eq!(c.leader_of(1), Some(2));
    assert_eq!(c.nodes[c.at(1)].last_leader_heartbeat(), Some(c.now));
}

#[test]
fn heartbeats_go_to_lower_peers_only() {
    let mut c = Cluster::new(&[1, 4, 6, 9]);
    c.kill(9);
    c.elect(6);
    c.sent.clear();
    for id in [1, 4, 6, 9] {
        c.beat(id);
    }
    assert_eq!(c.sent, vec![(6, 1, MessageType::HeartBeat), (6, 4, MessageType::HeartBeat)]);
}

#[test]
fn heartbeats_keep_the_leader() {
    let mut c = Cluster::new(&[1, 2, 3]);
    c.elect(3);
    for _ in 0..10 {
        c.now += 2 * SECOND;
        c.beat(3);
        c.now += SECOND;
        c.sent.clear();
        c.check(1);
        c.check(2);
        c.check(3);
        assert!(c.sent.is_empty());
        for id in [1, 2, 3] {
            assert_eq!(c.leader_of(id), Some(3));
        }
    }
}

#[test]
fn veto_by_any_live_higher_peer() {
    for higher in [4u8, 7, 9] {
        let mut c = Cluster::new(&[1, 3, 4, 7, 9]);
        for id in [4u8, 7, 9] {
            if id != higher {
                c.kill(id);
            }
        }
        let i = c.at(3);
        let mut step = c.nodes[i].elect();
        let mut wake = Vec::new();
        let mut observed = Vec::new();
        while let ElectionStep::Probe(peer) = step {
            let outcome = c.carry(3, peer, MessageType::Elect, &mut wake);
            let response = elect_response(outcome);
            observed.push((peer, response.clone().ok()));
            step = c.nodes[i].next_election_step(peer, &response);
        }
        assert_eq!(step, ElectionStep::Done(leader_elect::bully::node::ElectionResult::Fail));
        assert_eq!(
            observed.last(),
            Some(&(higher, Some(leader_elect::message::ElectResponse::BullierAlive)))
        );
        assert_eq!(c.leader_of(3), None);
    }
}

#[test]
fn the_live_nodes_agree_on_the_highest() {
    let ids = [3u8, 8, 20, 100, 250];
    for mask in 1u32..32 {
        for first in 0..ids.len() {
            let mut c = Cluster::new(&ids);
            c.elect(250);
            let mut live = Vec::new();
            for (k, id) in ids.iter().enumerate() {
                if mask & (1 << k) == 0 {
                    c.kill(*id);
                } else {
                    live.push(*id);
                }
            }
            c.now += 3 * SECOND + 1;
            for k in 0..ids.len() {
                c.check(ids[(first + k) % ids.len()]);
            }
            let highest = *live.iter().max().unwrap();
            for id in &live {
                assert_eq!(c.leader_of(*id), Some(highest), "{:?} {}", live, first);
            }
        }
    }
}
