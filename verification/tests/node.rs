use leader_elect::bully::address::Address;
use leader_elect::bully::connect::{ConnectDecision, ConnectOutcome, Dial};
use leader_elect::bully::consts::{
    ALIVE_TIMEOUT, HEARTBEAT_INTERVAL, INIT_CONN_TIMEOUT, LEADER_CHECK_INTERVAL, NANOS_PER_SEC,
    RETRY,
};
use leader_elect::bully::node::{ElectionResult, ElectionStep, Node, Opts, Reaction};
use leader_elect::bully::probe::{elect_response, ReadOutcome};
use leader_elect::bully::roster::{parse_peer_opt, Peer};
use leader_elect::error::{ErrorKind, LeaderElectError};
use leader_elect::logger::{level, LogLevel};
use leader_elect::message::{ElectResponse, Message, MessageType};

const SECOND: u128 = 1_000_000_000;

fn node(id: u8, others: &[u8]) -> Node {
    let peers: Vec<String> = others
        .iter()
        .map(|p| format!("{}=127.0.0.1:{}", p, 5000 + *p as u16))
        .collect();
    Node::new(id, &peers.join(","), &format!("127.0.0.1:{}", 5000 + id as u16)).unwrap()
}

fn kind_of(r: Result<Node, LeaderElectError>) -> ErrorKind {
    match r {
        Ok(_) => panic!("the configuration was accepted"),
        Err(e) => e.kind(),
    }
}

#[test]
fn constants() {
    assert_eq!(RETRY, 10);
    assert_eq!(INIT_CONN_TIMEOUT, 10);
    assert_eq!(ALIVE_TIMEOUT, 1);
    assert_eq!(HEARTBEAT_INTERVAL, 2);
    assert_eq!(LEADER_CHECK_INTERVAL, 3);
    assert_eq!(NANOS_PER_SEC, SECOND);
}

#[test]
fn address_exact_value() {
    let a = Address::parse("127.0.0.1:5678").unwrap();
    assert_eq!(a, Address { a: 127, b: 0, c: 0, d: 1, port: 5678 });
    let a = "0.0.0.0:0".parse::<Address>().unwrap();
    assert_eq!(a, Address { a: 0, b: 0, c: 0, d: 0, port: 0 });
    let a = Address::parse("255.255.255.255:65535").unwrap();
    assert_eq!(a, Address { a: 255, b: 255, c: 255, d: 255, port: 65535 });
    let a = Address::parse("10.20.30.40:0080").unwrap();
    assert_eq!(a, Address { a: 10, b: 20, c: 30, d: 40, port: 80 });
}

#[test]
fn address_rejected() {
    for bad in [
        "",
        ":",
        "1.2.3.4",
        "1.2.3.4:",
        ":80",
        "1.2.3:80",
        "1.2.3.4.5:80",
        "256.0.0.1:80",
        "1.2.3.4:65536",
        "1.2.3.4:99999999999999999999",
        "01.2.3.4:80",
        "1.2.3.04:80",
        "1..3.4:80",
        "1.2.3.4:80:90",
        "1.2.3.4:+80",
        "1.2.3.4:-80",
        " 1.2.3.4:80",
        "1.2.3.4:80 ",
        "1.2.3.4 :80",
        "a.b.c.d:80",
        "localhost:80",
        "[::1]:80",
        "1.2.3.4:http",
    ] {
        let e = Address::parse(bad).unwrap_err();
        assert_eq!(e.kind(), ErrorKind::InvalidAddress, "{:?}", bad);
        assert_eq!(e.to_string(), "invalid address");
    }
}

#[test]
fn address_port_may_have_zeros_in_front() {
    assert_eq!(Address::parse("1.2.3.4:00000000000080").unwrap().port, 80);
    assert_eq!(Address::parse("1.2.3.4:0").unwrap().port, 0);
    assert_eq!(Address::parse("1.2.3.4:000").unwrap().port, 0);
    assert!(Address::parse("000.0.0.0:1").is_err());
    assert!(Address::parse("0.0.0.00:1").is_err());
    assert!(Address::parse("1.2.3.4.:1").is_err());
    assert!(Address::parse(".1.2.3.4:1").is_err());
}

#[test]
fn peers_are_kept_in_the_order_of_their_ids() {
    let peers = parse_peer_opt("9=0.0.0.0:9,1=0.0.0.0:1,200=0.0.0.0:200,5=0.0.0.0:5").unwrap();
    let ids: Vec<u8> = peers.iter().map(|p| p.id).collect();
    assert_eq!(ids, vec![1, 5, 9, 200]);
    for p in &peers {
        assert_eq!(p.address, Address { a: 0, b: 0, c: 0, d: 0, port: p.id as u16 });
        assert!(!p.connected);
    }
}

#[test]
fn peers_exact_value() {
    let peers = parse_peer_opt("1=0.0.0.0:1234,2=0.0.0.0:5678").unwrap();
    assert_eq!(
        peers,
        vec![
            Peer { id: 1, address: Address { a: 0, b: 0, c: 0, d: 0, port: 1234 }, connected: false },
            Peer { id: 2, address: Address { a: 0, b: 0, c: 0, d: 0, port: 5678 }, connected: false },
        ]
    );
}

#[test]
fn peer_ids_as_the_configuration_writes_them() {
    let peers = parse_peer_opt("+7=1.1.1.1:1,007=1.1.1.1:2").unwrap_err();
    assert_eq!(peers.kind(), ErrorKind::DuplicatePeer);
    let peers = parse_peer_opt("+7=1.1.1.1:1,008=1.1.1.1:2,0=1.1.1.1:3,255=1.1.1.1:4").unwrap();
    let ids: Vec<u8> = peers.iter().map(|p| p.id).collect();
    assert_eq!(ids, vec![0, 7, 8, 255]);
}

#[test]
fn peers_malformed() {
    for bad in [
        "",
        ",",
        "1",
        "1=",
        "=1.2.3.4:5",
        "x=1.2.3.4:5",
        "256=1.2.3.4:5",
        "-1=1.2.3.4:5",
        "+=1.2.3.4:5",
        "++1=1.2.3.4:5",
        " 1=1.2.3.4:5",
        "1 =1.2.3.4:5",
        "1=1.2.3.4:5,",
        ",1=1.2.3.4:5",
        "1=1.2.3.4:5,,2=1.2.3.4:5",
        "1=1.2.3.4:5=6",
        "1=1.2.3.4:5;2=1.2.3.4:6",
    ] {
        let e = parse_peer_opt(bad).unwrap_err();
        let expected = if bad == "1=" { ErrorKind::InvalidAddress } else { ErrorKind::MalformedPeers };
        assert_eq!(e.kind(), expected, "{:?}", bad);
    }
}

#[test]
fn peers_invalid_address() {
    for bad in ["1=nowhere", "1=1.2.3.4", "1=1.2.3.4:70000", "1=1.2.3.4:5, 2=1.2.3.4:6", "1= 1.2.3.4:5"] {
        let e = parse_peer_opt(bad).unwrap_err();
        let expected = if bad.contains(", ") { ErrorKind::MalformedPeers } else { ErrorKind::InvalidAddress };
        assert_eq!(e.kind(), expected, "{:?}", bad);
    }
}

#[test]
fn peers_duplicate_id() {
    let e = parse_peer_opt("1=1.2.3.4:5,2=1.2.3.4:6,1=1.2.3.4:7").unwrap_err();
    assert_eq!(e.kind(), ErrorKind::DuplicatePeer);
    assert_eq!(e.to_string(), "duplicate peer id");
}

#[test]
fn peers_first_fault_decides() {
    let e = parse_peer_opt("1=1.2.3.4:5,1=1.2.3.4:6,x").unwrap_err();
    assert_eq!(e.kind(), ErrorKind::DuplicatePeer);
    let e = parse_peer_opt("1=1.2.3.4:5,x,1=1.2.3.4:6").unwrap_err();
    assert_eq!(e.kind(), ErrorKind::MalformedPeers);
    let e = parse_peer_opt("1=bad,x,1=1.2.3.4:6").unwrap_err();
    assert_eq!(e.kind(), ErrorKind::InvalidAddress);
}

#[test]
fn node_new() {
    let n = Node::new(2, "3=10.0.0.3:7000,1=10.0.0.1:7000", "10.0.0.2:7000").unwrap();
    assert_eq!(n.id(), 2);
    assert_eq!(n.advertise_address(), Address { a: 10, b: 0, c: 0, d: 2, port: 7000 });
    assert_eq!(n.leader(), None);
    assert_eq!(n.last_leader_heartbeat(), None);
    let ids: Vec<u8> = n.peers().iter().map(|p| p.id).collect();
    assert_eq!(ids, vec![1, 3]);
    assert_eq!(n.bulliers(), vec![3]);
    assert_eq!(n.announce_victory(), vec![1]);
}

#[test]
fn node_new_errors() {
    assert_eq!(kind_of(Node::new(1, "2=1.2.3.4:5", "nowhere")), ErrorKind::InvalidAddress);
    assert_eq!(kind_of(Node::new(1, "x", "nowhere")), ErrorKind::InvalidAddress);
    assert_eq!(kind_of(Node::new(1, "x", "1.2.3.4:5")), ErrorKind::MalformedPeers);
    assert_eq!(kind_of(Node::new(1, "", "1.2.3.4:5")), ErrorKind::MalformedPeers);
    assert_eq!(kind_of(Node::new(1, "2=x", "1.2.3.4:5")), ErrorKind::InvalidAddress);
    assert_eq!(kind_of(Node::new(1, "2=1.2.3.4:5,2=1.2.3.4:6", "1.2.3.4:5")), ErrorKind::DuplicatePeer);
    assert_eq!(kind_of(Node::new(1, "2=1.2.3.4:5,1=1.2.3.4:6", "1.2.3.4:5")), ErrorKind::SelfAmongPeers);
    assert_eq!(kind_of(Node::new(1, "1=1.2.3.4:5,1=1.2.3.4:6", "1.2.3.4:5")), ErrorKind::DuplicatePeer);
}

#[test]
fn node_from_opts() {
    let opts = Opts {
        id: 4,
        peers: "1=0.0.0.0:1234,2=0.0.0.0:5678".to_owned(),
        advertise_address: "127.0.0.1:5678".to_owned(),
        log_level: "info".to_owned(),
    };
    let n = Node::from_opts(&opts).unwrap();
    assert_eq!(n.id(), 4);
    assert_eq!(n.announce_victory(), vec![1, 2]);
    assert_eq!(n.bulliers(), Vec::<u8>::new());
    let opts = Opts { id: 2, ..opts };
    assert_eq!(kind_of(Node::from_opts(&opts)), ErrorKind::SelfAmongPeers);
}

#[test]
fn log_levels() {
    assert_eq!(level("trace"), LogLevel::Trace);
    assert_eq!(level("debug"), LogLevel::Debug);
    assert_eq!(level("info"), LogLevel::Info);
    assert_eq!(level("warn"), LogLevel::Warn);
    assert_eq!(level("error"), LogLevel::Error);
    for other in ["", "INFO", "Debug", "verbose", " warn", "warning", "errors"] {
        assert_eq!(level(other), LogLevel::Info, "{:?}", other);
    }
}

#[test]
fn heartbeat_makes_the_sender_the_leader() {
    let mut n = node(2, &[1, 3]);
    let r = n.handle_message(Message::new(3, MessageType::HeartBeat), 17 * SECOND);
    assert_eq!(r, Reaction { reply: None, elect: false });
    assert_eq!(n.leader(), Some(3));
    assert_eq!(n.last_leader_heartbeat(), Some(17 * SECOND));
    let r = n.handle_message(Message::new(1, MessageType::HeartBeat), 18 * SECOND);
    assert_eq!(r, Reaction { reply: None, elect: false });
    assert_eq!(n.leader(), Some(1));
    assert_eq!(n.last_leader_heartbeat(), Some(18 * SECOND));
}

#[test]
fn victory_makes_the_sender_the_leader() {
    let mut n = node(2, &[1, 3]);
    let r = n.handle_message(Message::new(3, MessageType::Victory), 5);
    assert_eq!(r, Reaction { reply: None, elect: false });
    assert_eq!(n.leader(), Some(3));
    assert_eq!(n.last_leader_heartbeat(), Some(5));
}

#[test]
fn monotone_dominance() {
    let mut n = node(1, &[2, 3, 4]);
    n.handle_message(Message::new(2, MessageType::Victory), 1);
    n.handle_message(Message::new(4, MessageType::Victory), 2);
    assert_eq!(n.leader(), Some(4));
    n.handle_message(Message::new(3, MessageType::Victory), 3);
    assert_eq!(n.leader(), Some(3));
}

#[test]
fn the_same_victory_twice() {
    let mut n = node(1, &[2, 3]);
    n.handle_message(Message::new(3, MessageType::Victory), 9);
    let (leader, last) = (n.leader(), n.last_leader_heartbeat());
    n.handle_message(Message::new(3, MessageType::Victory), 9);
    assert_eq!((n.leader(), n.last_leader_heartbeat()), (leader, last));
}

#[test]
fn elect_is_answered_with_alive() {
    let mut n = node(5, &[2, 7]);
    let r = n.handle_message(Message::new(2, MessageType::Elect), 1);
    assert_eq!(r, Reaction { reply: Some(Message::new(5, MessageType::Alive)), elect: true });
    assert_eq!(n.leader(), None);
    assert_eq!(n.last_leader_heartbeat(), None);
    let r = n.handle_message(Message::new(7, MessageType::Elect), 1);
    assert_eq!(r, Reaction { reply: Some(Message::new(5, MessageType::Alive)), elect: false });
    let r = n.handle_message(Message::new(5, MessageType::Elect), 1);
    assert_eq!(r, Reaction { reply: Some(Message::new(5, MessageType::Alive)), elect: false });
    assert_eq!(n.leader(), None);
}

#[test]
fn elect_leaves_the_leader() {
    let mut n = node(5, &[2, 7]);
    n.handle_message(Message::new(7, MessageType::HeartBeat), 100);
    n.handle_message(Message::new(2, MessageType::Elect), 200);
    assert_eq!(n.leader(), Some(7));
    assert_eq!(n.last_leader_heartbeat(), Some(100));
}

#[test]
fn alive_changes_nothing() {
    let mut n = node(5, &[2, 7]);
    n.handle_message(Message::new(7, MessageType::HeartBeat), 100);
    let r = n.handle_message(Message::new(7, MessageType::Alive), 200);
    assert_eq!(r, Reaction { reply: None, elect: false });
    assert_eq!(n.leader(), Some(7));
    assert_eq!(n.last_leader_heartbeat(), Some(100));
}

#[test]
fn leader_check_waits_for_the_first_heartbeat() {
    let mut n = node(1, &[2]);
    assert!(!n.check_leader(0).unwrap());
    assert!(!n.check_leader(1_000 * SECOND).unwrap());
    assert_eq!(n.leader(), None);
}

#[test]
fn leader_check_exact_limit() {
    let mut n = node(1, &[2]);
    let t = 1_700_000_000 * SECOND;
    n.handle_message(Message::new(2, MessageType::HeartBeat), t);
    assert!(!n.check_leader(t).unwrap());
    assert!(!n.check_leader(t + 1).unwrap());
    assert!(!n.check_leader(t + 3 * SECOND - 1).unwrap());
    assert!(!n.check_leader(t + 3 * SECOND).unwrap());
    assert_eq!(n.leader(), Some(2));
    assert_eq!(n.last_leader_heartbeat(), Some(t));
    assert!(n.check_leader(t + 3 * SECOND + 1).unwrap());
    assert_eq!(n.leader(), None);
    assert_eq!(n.last_leader_heartbeat(), None);
    assert!(!n.check_leader(t + 100 * SECOND).unwrap());
}

#[test]
fn leader_check_when_the_clock_went_backwards() {
    let mut n = node(1, &[2]);
    n.handle_message(Message::new(2, MessageType::HeartBeat), 10 * SECOND);
    let e = n.check_leader(10 * SECOND - 1).unwrap_err();
    assert_eq!(e.kind(), ErrorKind::ClockWentBackwards);
    assert_eq!(n.leader(), Some(2));
    assert_eq!(n.last_leader_heartbeat(), Some(10 * SECOND));
}

#[test]
fn leader_check_at_the_largest_times() {
    let mut n = node(1, &[2]);
    n.handle_message(Message::new(2, MessageType::HeartBeat), 0);
    assert!(n.check_leader(u128::MAX).unwrap());
    n.handle_message(Message::new(2, MessageType::HeartBeat), u128::MAX);
    assert!(!n.check_leader(u128::MAX).unwrap());
}

#[test]
fn heartbeat_recipients() {
    let mut n = node(5, &[1, 3, 7, 9]);
    assert_eq!(n.heartbeat(), Vec::<u8>::new());
    n.handle_message(Message::new(9, MessageType::Victory), 1);
    assert_eq!(n.heartbeat(), Vec::<u8>::new());
    n.conclude_election(ElectionResult::Win);
    assert_eq!(n.leader(), Some(5));
    assert_eq!(n.heartbeat(), vec![1, 3]);
    for id in n.heartbeat() {
        assert!(id < 5);
    }
    n.handle_message(Message::new(7, MessageType::HeartBeat), 1);
    assert_eq!(n.heartbeat(), Vec::<u8>::new());
}

#[test]
fn heartbeat_of_the_lowest_and_the_highest() {
    let mut low = node(0, &[1, 2, 255]);
    low.conclude_election(ElectionResult::Win);
    assert_eq!(low.heartbeat(), Vec::<u8>::new());
    let mut high = node(255, &[0, 1, 254]);
    high.conclude_election(ElectionResult::Win);
    assert_eq!(high.heartbeat(), vec![0, 1, 254]);
    assert_eq!(high.bulliers(), Vec::<u8>::new());
    assert_eq!(high.elect(), ElectionStep::Done(ElectionResult::Win));
}

#[test]
fn send_needs_a_connection() {
    let mut n = node(2, &[1, 3]);
    let e = n.send(3, MessageType::HeartBeat).unwrap_err();
    assert_eq!(e.kind(), ErrorKind::ConnectionMissing);
    assert_eq!(e.to_string(), "try to send message through nonexist connection");
    assert!(n.set_connected(3));
    assert_eq!(n.send(3, MessageType::HeartBeat).unwrap(), "2:0\n");
    assert_eq!(n.send(3, MessageType::Elect).unwrap(), "2:1\n");
    assert_eq!(n.send(3, MessageType::Alive).unwrap(), "2:2\n");
    assert_eq!(n.send(3, MessageType::Victory).unwrap(), "2:3\n");
    assert_eq!(n.send(1, MessageType::Victory).unwrap_err().kind(), ErrorKind::ConnectionMissing);
    assert_eq!(n.send(9, MessageType::Victory).unwrap_err().kind(), ErrorKind::ConnectionMissing);
    assert_eq!(n.send(2, MessageType::Victory).unwrap_err().kind(), ErrorKind::ConnectionMissing);
}

#[test]
fn set_connected() {
    let mut n = node(2, &[1, 3]);
    assert!(!n.set_connected(9));
    assert!(!n.set_connected(2));
    assert!(n.peers().iter().all(|p| !p.connected));
    assert!(n.set_connected(1));
    assert!(n.set_connected(1));
    let connected: Vec<(u8, bool)> = n.peers().iter().map(|p| (p.id, p.connected)).collect();
    assert_eq!(connected, vec![(1, true), (3, false)]);
    assert_eq!(n.peers()[0].address, Address { a: 127, b: 0, c: 0, d: 1, port: 5001 });
}

#[test]
fn election_asks_in_ascending_order() {
    let n = node(3, &[9, 1, 5, 7, 2]);
    let none = Ok(ElectResponse::ResponseTimeOut);
    assert_eq!(n.elect(), ElectionStep::Probe(5));
    assert_eq!(n.next_election_step(5, &none), ElectionStep::Probe(7));
    assert_eq!(n.next_election_step(7, &none), ElectionStep::Probe(9));
    assert_eq!(n.next_election_step(9, &none), ElectionStep::Done(ElectionResult::Win));
}

#[test]
fn election_stops_at_the_first_alive() {
    let n = node(3, &[9, 1, 5, 7, 2]);
    let alive = Ok(ElectResponse::BullierAlive);
    assert_eq!(n.next_election_step(5, &alive), ElectionStep::Done(ElectionResult::Fail));
    assert_eq!(n.next_election_step(9, &alive), ElectionStep::Done(ElectionResult::Fail));
}

#[test]
fn election_takes_an_error_for_no_answer() {
    let n = node(3, &[5, 7]);
    for kind in [
        ErrorKind::Transport,
        ErrorKind::ConnectionMissing,
        ErrorKind::MalformedMessage,
        ErrorKind::UnexpectedReply,
        ErrorKind::ZeroBytesRead,
    ] {
        let failed = Err(LeaderElectError::of(kind));
        assert_eq!(n.next_election_step(5, &failed), ElectionStep::Probe(7));
        assert_eq!(n.next_election_step(7, &failed), ElectionStep::Done(ElectionResult::Win));
    }
}

#[test]
fn election_step_after_any_id() {
    let n = node(3, &[1, 5, 7]);
    let none = Ok(ElectResponse::ResponseTimeOut);
    assert_eq!(n.next_election_step(0, &none), ElectionStep::Probe(5));
    assert_eq!(n.next_election_step(1, &none), ElectionStep::Probe(5));
    assert_eq!(n.next_election_step(3, &none), ElectionStep::Probe(5));
    assert_eq!(n.next_election_step(4, &none), ElectionStep::Probe(5));
    assert_eq!(n.next_election_step(6, &none), ElectionStep::Probe(7));
    assert_eq!(n.next_election_step(8, &none), ElectionStep::Done(ElectionResult::Win));
    assert_eq!(n.next_election_step(255, &none), ElectionStep::Done(ElectionResult::Win));
}

#[test]
fn election_win_and_fail() {
    let mut n = node(3, &[1, 2, 5]);
    n.handle_message(Message::new(5, MessageType::HeartBeat), 42);
    assert_eq!(n.conclude_election(ElectionResult::Fail), Vec::<u8>::new());
    assert_eq!(n.leader(), Some(5));
    assert_eq!(n.last_leader_heartbeat(), Some(42));
    assert_eq!(n.conclude_election(ElectionResult::Win), vec![1, 2]);
    assert_eq!(n.leader(), Some(3));
    assert_eq!(n.last_leader_heartbeat(), Some(42));
}

#[test]
fn dial_gives_up_after_ten_time_outs() {
    let mut dial = Dial::new();
    let mut dials = 0;
    loop {
        dials += 1;
        match dial.next(ConnectOutcome::TimedOut) {
            ConnectDecision::Retry => continue,
            decision => {
                assert_eq!(decision, ConnectDecision::GiveUp);
                break;
            }
        }
    }
    assert_eq!(dials, 10);
    assert_eq!(dial.attempts, 10);
    assert_eq!(dial.next(ConnectOutcome::TimedOut), ConnectDecision::GiveUp);
    assert_eq!(dial.attempts, 10);
}

#[test]
fn dial_other_outcomes() {
    let mut dial = Dial::new();
    assert_eq!(dial.attempts, 0);
    assert_eq!(dial.next(ConnectOutcome::Failed), ConnectDecision::GiveUp);
    assert_eq!(dial.attempts, 1);
    let mut dial = Dial::new();
    assert_eq!(dial.next(ConnectOutcome::Connected), ConnectDecision::Keep);
    let mut dial = Dial::new();
    for _ in 0..9 {
        assert_eq!(dial.next(ConnectOutcome::TimedOut), ConnectDecision::Retry);
    }
    assert_eq!(dial.next(ConnectOutcome::Connected), ConnectDecision::Keep);
    let mut dial = Dial::new();
    for _ in 0..4 {
        assert_eq!(dial.next(ConnectOutcome::TimedOut), ConnectDecision::Retry);
    }
    assert_eq!(dial.next(ConnectOutcome::Failed), ConnectDecision::GiveUp);
    assert_eq!(dial.attempts, 5);
}

#[test]
fn elect_response_of_each_outcome() {
    assert_eq!(elect_response(ReadOutcome::TimedOut).unwrap(), ElectResponse::ResponseTimeOut);
    assert_eq!(
        elect_response(ReadOutcome::Line("9:2\n".to_owned())).unwrap(),
        ElectResponse::BullierAlive
    );
    let e = elect_response(ReadOutcome::Failed("connection reset".to_owned())).unwrap_err();
    assert_eq!(e.kind(), ErrorKind::Transport);
    assert_eq!(e.to_string(), "connection reset");
    let e = elect_response(ReadOutcome::Line(String::new())).unwrap_err();
    assert_eq!(e.kind(), ErrorKind::ZeroBytesRead);
    let e = elect_response(ReadOutcome::Line("foo\n".to_owned())).unwrap_err();
    assert_eq!(e.kind(), ErrorKind::MalformedMessage);
    for other in ["9:0\n", "9:1\n", "9:3\n"] {
        let e = elect_response(ReadOutcome::Line(other.to_owned())).unwrap_err();
        assert_eq!(e.kind(), ErrorKind::UnexpectedReply, "{:?}", other);
        assert_eq!(e.to_string(), "incorrect message type");
    }
}
