//! The message engine on concrete scenarios: ping, propagation,
//! dedup, opportunistic connects, whisper hops, and the tracker
//! bootstrap.
use libb2b::available_incoming;
use libb2b::bootstrap_targets;
use libb2b::make_announce;
use libb2b::parse_register_response;
use libb2b::process_command_with_roll;
use libb2b::Announce;
use libb2b::Bing2BingCommand;
use libb2b::Bing2BingFrame;
use libb2b::Effect;
use libb2b::PeerData;
use libb2b::PeerMap;
use libb2b::Ping;
use libb2b::ProcessedCommands;
use libb2b::Say;
use libb2b::TrackerRegistry;
use libb2b::TtlMap;
use libb2b::Whisper;

/// One peer's engine state, with its effects interpreted by hand.
struct TestPeer {
    name: String,
    peers: PeerMap,
    adjacency: TtlMap<PeerData>,
    processed: ProcessedCommands,
    delivered: Vec<(String, String)>,
}

impl TestPeer {
    fn new(name: &str, outbound: &[&str]) -> TestPeer {
        let mut peers = PeerMap::new();
        for p in outbound {
            peers.insert(p.to_string());
        }
        TestPeer {
            name: name.to_string(),
            peers,
            adjacency: TtlMap::new(),
            processed: ProcessedCommands::new(),
            delivered: Vec::new(),
        }
    }

    /// Handles one inbound frame at time `now`: records local
    /// deliveries and returns the onward sends as `(target, frame)`.
    fn receive(&mut self, frame: Bing2BingFrame, now: u64) -> Vec<(String, Bing2BingFrame)> {
        let cmd = Bing2BingCommand::from_frame(frame).expect("well-formed command");
        let effects =
            process_command_with_roll(&cmd, &self.peers, &mut self.adjacency, &mut self.processed, now, 1);
        let mut sends = Vec::new();
        for e in effects {
            match e {
                Effect::SendToPeer { peer, frame } => sends.push((peer, frame)),
                Effect::DeliverSay { source, message } => self.delivered.push((source, message)),
                _ => {}
            }
        }
        sends
    }
}

#[test]
fn ping_elicits_one_number_response() {
    // S1: B reads ["ping","A",7] and writes back the bare number 7;
    // B's peer map is not fanned out to.
    let mut b = TestPeer::new("B", &["C", "D"]);
    let frame = Ping::new("A".to_string(), 7).into_frame();
    let cmd = Bing2BingCommand::from_frame(frame).expect("parses");
    let effects = process_command_with_roll(
        &cmd,
        &b.peers,
        &mut b.adjacency,
        &mut b.processed,
        1000,
        0,
    );
    assert_eq!(effects.len(), 1);
    match &effects[0] {
        Effect::Respond { frame } => {
            assert!(frame.frame_eq(&Bing2BingFrame::Number(7)));
            assert_eq!(frame.encode(), b"7".to_vec());
        }
        other => panic!("expected a response, got {:?}", other),
    }
}

#[test]
fn ping_is_never_deduplicated() {
    // A second identical ping still gets its response.
    let mut b = TestPeer::new("B", &[]);
    for _ in 0..2 {
        let frame = Ping::new("A".to_string(), 7).into_frame();
        let cmd = Bing2BingCommand::from_frame(frame).expect("parses");
        let effects = process_command_with_roll(
            &cmd,
            &b.peers,
            &mut b.adjacency,
            &mut b.processed,
            1000,
            0,
        );
        assert_eq!(effects.len(), 1);
    }
}

#[test]
fn say_propagates_along_a_chain() {
    // S2: peers A-B-C-D form the outbound chain A→B→C→D plus D→A. A
    // says "hi"; every other peer delivers ("A","hi") exactly once,
    // and A does not deliver through the network path: no peer
    // forwards a command back to the peer its envelope names as
    // source.
    let mut a = TestPeer::new("A", &["B"]);
    let mut b = TestPeer::new("B", &["C"]);
    let mut c = TestPeer::new("C", &["D"]);
    let mut d = TestPeer::new("D", &["A"]);

    // A originates: broadcast to its outbound peers and mark its own
    // pair as processed so the copy that loops back is dropped.
    let say = Say::new("A".to_string(), 1, "hi");
    let origin_cmd = Bing2BingCommand::Say(say);
    let from_a = process_command_with_roll(
        &origin_cmd,
        &a.peers,
        &mut a.adjacency,
        &mut a.processed,
        1000,
        0,
    );
    let mut to_b = Vec::new();
    for e in from_a {
        match e {
            Effect::SendToPeer { peer, frame } => to_b.push((peer, frame)),
            Effect::DeliverSay { source, message } => a.delivered.push((source, message)),
            other => panic!("unexpected effect {:?}", other),
        }
    }
    assert_eq!(to_b.len(), 1);
    assert_eq!(to_b[0].0, "B");

    let to_c = b.receive(to_b.remove(0).1, 1001);
    assert_eq!(to_c.len(), 1);
    assert_eq!(to_c[0].0, "C");
    let mut to_c = to_c;
    let to_d = c.receive(to_c.remove(0).1, 1002);
    assert_eq!(to_d.len(), 1);
    assert_eq!(to_d[0].0, "D");
    let mut to_d = to_d;
    // D's only outbound peer is A, the say's source: the forward rule
    // excludes it, so the line stops here instead of looping.
    let back_to_a = d.receive(to_d.remove(0).1, 1003);
    assert!(back_to_a.is_empty());

    let expected = ("A".to_string(), "hi".to_string());
    assert_eq!(b.delivered, vec![expected.clone()]);
    assert_eq!(c.delivered, vec![expected.clone()]);
    assert_eq!(d.delivered, vec![expected.clone()]);
    // A delivered its own line locally when originating, once.
    assert_eq!(a.delivered, vec![expected]);
}

#[test]
fn duplicate_say_is_dropped_at_the_gate() {
    // S3: C receives the same say twice within the window; it applies
    // and forwards once, and the second receipt does nothing.
    let mut c = TestPeer::new("C", &["D"]);
    let frame = Say::new("A".to_string(), 1, "hi").into_frame();
    let first = c.receive(frame, 1000);
    assert_eq!(first.len(), 1);
    assert_eq!(c.delivered.len(), 1);

    let frame = Say::new("A".to_string(), 1, "hi").into_frame();
    let second = c.receive(frame, 2000);
    assert!(second.is_empty());
    assert_eq!(c.delivered.len(), 1);
}

#[test]
fn dedup_window_expires() {
    // The same pair is applied again once the window has passed.
    let mut c = TestPeer::new("C", &[]);
    let frame = Say::new("A".to_string(), 1, "hi").into_frame();
    c.receive(frame, 1000);
    let frame = Say::new("A".to_string(), 1, "hi").into_frame();
    c.receive(frame, 1000 + 30000);
    assert_eq!(c.delivered.len(), 2);
}

fn announce_from_a(sequence_number: u64, available: u64) -> Announce {
    Announce::new(
        "A".to_string(),
        sequence_number,
        "10.0.0.1".to_string(),
        4000,
        available,
        "New York".to_string(),
        40.6943f64.to_bits(),
        (-73.9249f64).to_bits(),
        vec![],
    )
}

#[test]
fn opportunistic_connect_on_a_zero_roll() {
    // S4: B has no outbound connection to A; A announces one free
    // inbound slot; B's roll in [0,1) is 0, so B connects to A's
    // advertised address. A later announce, once B is connected, does
    // not reconnect.
    let mut b = TestPeer::new("B", &["E"]);
    let cmd = Bing2BingCommand::Announce(announce_from_a(1, 1));
    let effects = process_command_with_roll(
        &cmd,
        &b.peers,
        &mut b.adjacency,
        &mut b.processed,
        1000,
        0,
    );
    let connects: Vec<&Effect> = effects
        .iter()
        .filter(|e| matches!(e, Effect::Connect { .. }))
        .collect();
    assert_eq!(connects.len(), 1);
    match connects[0] {
        Effect::Connect { peer, ip_address, port } => {
            assert_eq!(peer, "A");
            assert_eq!(ip_address, "10.0.0.1");
            assert_eq!(*port, 4000);
        }
        _ => unreachable!(),
    }

    // The process acts on the effect: the worker registers A.
    b.peers.insert("A".to_string());
    let cmd = Bing2BingCommand::Announce(announce_from_a(2, 1));
    let effects = process_command_with_roll(
        &cmd,
        &b.peers,
        &mut b.adjacency,
        &mut b.processed,
        2000,
        0,
    );
    assert!(effects.iter().all(|e| !matches!(e, Effect::Connect { .. })));
}

#[test]
fn capacity_of_one_always_connects() {
    // With one free slot the drawn roll lies in [0,1), so it is zero
    // and the connect is certain.
    let mut b = TestPeer::new("B", &[]);
    let cmd = Bing2BingCommand::Announce(announce_from_a(1, 1));
    let effects = libb2b::process_command(&cmd, &b.peers, &mut b.adjacency, &mut b.processed, 1000);
    assert!(effects.iter().any(|e| matches!(e, Effect::Connect { .. })));
}

#[test]
fn no_connect_without_capacity() {
    // An announce advertising no free slot never triggers a connect,
    // whatever the roll.
    let mut b = TestPeer::new("B", &[]);
    let cmd = Bing2BingCommand::Announce(announce_from_a(1, 0));
    let effects = process_command_with_roll(
        &cmd,
        &b.peers,
        &mut b.adjacency,
        &mut b.processed,
        1000,
        0,
    );
    assert!(effects.iter().all(|e| !matches!(e, Effect::Connect { .. })));
}

#[test]
fn nonzero_roll_does_not_connect() {
    let mut b = TestPeer::new("B", &[]);
    let cmd = Bing2BingCommand::Announce(announce_from_a(1, 2));
    let effects = process_command_with_roll(
        &cmd,
        &b.peers,
        &mut b.adjacency,
        &mut b.processed,
        1000,
        1,
    );
    assert!(effects.iter().all(|e| !matches!(e, Effect::Connect { .. })));
}

#[test]
fn announce_updates_the_adjacency_map() {
    let mut b = TestPeer::new("B", &[]);
    let cmd = Bing2BingCommand::Announce(announce_from_a(1, 0));
    process_command_with_roll(&cmd, &b.peers, &mut b.adjacency, &mut b.processed, 1000, 0);
    let data = b.adjacency.get("A", 1500).expect("fresh record");
    assert_eq!(data.city, "New York");
    assert_eq!(data.get_peers().len(), 0);
    // The record expires 30 s after it was written.
    assert!(b.adjacency.get("A", 1000 + 30000).is_none());
}

#[test]
fn announce_forwards_to_peers_except_source() {
    let mut b = TestPeer::new("B", &["A", "C", "D"]);
    let cmd = Bing2BingCommand::Announce(announce_from_a(1, 0));
    let effects = process_command_with_roll(
        &cmd,
        &b.peers,
        &mut b.adjacency,
        &mut b.processed,
        1000,
        0,
    );
    let targets: Vec<String> = effects
        .iter()
        .filter_map(|e| match e {
            Effect::SendToPeer { peer, .. } => Some(peer.clone()),
            _ => None,
        })
        .collect();
    assert_eq!(targets, vec!["C".to_string(), "D".to_string()]);
}

#[test]
fn whisper_hops_along_its_path() {
    // S5: A emits ["whisper","A",9,"D","hello",["B","C","D"]]. Each
    // hop drops the head of the path and sends the frame on to the
    // peer the new head names: B sends path ["C","D"] to C, C sends
    // ["D"] to D, and D, left with an empty path, stops.
    let mut b = TestPeer::new("B", &["C"]);
    let frame = Whisper::new(
        "A".to_string(),
        9,
        "D",
        "hello",
        vec!["B".to_string(), "C".to_string(), "D".to_string()],
    )
    .into_frame();
    let from_b = b.receive(frame, 1000);
    assert_eq!(from_b.len(), 1);
    assert_eq!(from_b[0].0, "C");
    assert_eq!(
        from_b[0].1.encode(),
        b"[\"whisper\",\"A\",9,\"D\",\"hello\",[\"C\",\"D\"]]".to_vec()
    );

    let mut c = TestPeer::new("C", &["D"]);
    let mut from_b = from_b;
    let from_c = c.receive(from_b.remove(0).1, 1001);
    assert_eq!(from_c.len(), 1);
    assert_eq!(from_c[0].0, "D");
    assert_eq!(
        from_c[0].1.encode(),
        b"[\"whisper\",\"A\",9,\"D\",\"hello\",[\"D\"]]".to_vec()
    );

    let mut d = TestPeer::new("D", &["A"]);
    let mut from_c = from_c;
    let from_d = d.receive(from_c.remove(0).1, 1002);
    assert!(from_d.is_empty());
}

#[test]
fn whisper_with_empty_path_sends_nothing() {
    let mut b = TestPeer::new("B", &["C"]);
    let frame = Whisper::new("A".to_string(), 9, "D", "hello", vec![]).into_frame();
    let sends = b.receive(frame, 1000);
    assert!(sends.is_empty());
}

#[test]
fn whisper_to_an_unregistered_hop_is_dropped() {
    let mut b = TestPeer::new("B", &["E"]);
    let frame = Whisper::new(
        "A".to_string(),
        9,
        "D",
        "hello",
        vec!["B".to_string(), "C".to_string()],
    )
    .into_frame();
    let sends = b.receive(frame, 1000);
    assert!(sends.is_empty());
}

#[test]
fn register_is_rejected_by_peers() {
    let mut b = TestPeer::new("B", &["C"]);
    let frame = libb2b::Register::new("X", 0, "10.0.0.4", "4000").into_frame();
    let cmd = Bing2BingCommand::from_frame(frame).expect("parses");
    let effects = process_command_with_roll(
        &cmd,
        &b.peers,
        &mut b.adjacency,
        &mut b.processed,
        1000,
        0,
    );
    assert_eq!(effects.len(), 1);
    assert!(matches!(effects[0], Effect::RejectRegister));
}

#[test]
fn advertised_capacity_is_max_minus_current() {
    // The advertised capacity formula on concrete values, through
    // the announce builder.
    assert_eq!(available_incoming(2, 0), 2);
    assert_eq!(available_incoming(2, 1), 1);
    assert_eq!(available_incoming(2, 2), 0);
    assert_eq!(available_incoming(2, 5), 0);
    let a = make_announce(
        "A".to_string(),
        1,
        "10.0.0.1".to_string(),
        4000,
        2,
        1,
        "New York".to_string(),
        0,
        0,
        vec![],
    );
    assert_eq!(a.available_incoming, 1);
}

#[test]
fn tracker_bootstrap() {
    // S6: a tracker holding A, B and C answers a registration with the
    // full list; the joiner connects to everyone but itself.
    let mut tracker = TrackerRegistry::new();
    tracker.register("A".to_string(), "10.0.0.1".to_string(), "4001".to_string());
    tracker.register("B".to_string(), "10.0.0.2".to_string(), "4002".to_string());
    tracker.register("C".to_string(), "10.0.0.3".to_string(), "4003".to_string());
    tracker.register("X".to_string(), "10.0.0.4".to_string(), "4000".to_string());

    let response = tracker.response_frame(8);
    let received = parse_register_response(response).expect("well-formed response");
    assert_eq!(received.len(), 4);
    assert_eq!(
        received[0],
        ("A".to_string(), "10.0.0.1".to_string(), "4001".to_string())
    );

    let targets = bootstrap_targets(received, "X");
    assert_eq!(targets.len(), 3);
    assert!(targets.iter().all(|t| t.0 != "X"));
    assert_eq!(targets[0].0, "A");
    assert_eq!(targets[1].0, "B");
    assert_eq!(targets[2].0, "C");
}

#[test]
fn tracker_response_is_bounded() {
    let mut tracker = TrackerRegistry::new();
    tracker.register("A".to_string(), "10.0.0.1".to_string(), "4001".to_string());
    tracker.register("B".to_string(), "10.0.0.2".to_string(), "4002".to_string());
    tracker.register("C".to_string(), "10.0.0.3".to_string(), "4003".to_string());
    let response = tracker.response_frame(2);
    let received = parse_register_response(response).expect("well-formed response");
    assert_eq!(received.len(), 2);
}

#[test]
fn tracker_reregistration_updates_in_place() {
    let mut tracker = TrackerRegistry::new();
    tracker.register("A".to_string(), "10.0.0.1".to_string(), "4001".to_string());
    tracker.register("A".to_string(), "10.0.0.9".to_string(), "4009".to_string());
    let response = tracker.response_frame(8);
    let received = parse_register_response(response).expect("well-formed response");
    assert_eq!(received.len(), 1);
    assert_eq!(
        received[0],
        ("A".to_string(), "10.0.0.9".to_string(), "4009".to_string())
    );
}

#[test]
fn local_say_broadcasts_to_every_peer() {
    let mut peers = PeerMap::new();
    peers.insert("B".to_string());
    peers.insert("C".to_string());
    let effects = libb2b::say(&peers, "A".to_string(), "hi".to_string(), 1);
    let targets: Vec<String> = effects
        .iter()
        .filter_map(|e| match e {
            Effect::SendToPeer { peer, .. } => Some(peer.clone()),
            _ => None,
        })
        .collect();
    assert_eq!(targets, vec!["B".to_string(), "C".to_string()]);
}

#[test]
fn peer_map_tracks_workers() {
    let mut peers = PeerMap::new();
    assert!(!peers.contains_peer("B"));
    peers.insert("B".to_string());
    assert!(peers.contains_peer("B"));
    peers.insert("B".to_string());
    assert_eq!(peers.peer_names().len(), 1);
    peers.remove("B");
    assert!(!peers.contains_peer("B"));
    assert!(peers.peer_names().is_empty());
}
