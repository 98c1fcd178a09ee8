//! The command codec on concrete values: parsing, canonical frames,
//! round trips, case-insensitive tags, and the unknown command.
use libb2b::Announce;
use libb2b::Bing2BingCommand;
use libb2b::Bing2BingFrame;
use libb2b::Broadcast;
use libb2b::Deliver;
use libb2b::Extension;
use libb2b::Ping;
use libb2b::Register;
use libb2b::Say;
use libb2b::Whisper;

fn text(s: &str) -> Bing2BingFrame {
    Bing2BingFrame::Text(s.to_string())
}

#[test]
fn ping_round_trip() {
    let f = Ping::new("A".to_string(), 7).into_frame();
    assert_eq!(f.encode(), b"[\"ping\",\"A\",7]".to_vec());
    match Bing2BingCommand::from_frame(f).expect("parses") {
        Bing2BingCommand::Ping(p) => {
            assert_eq!(p.source, "A");
            assert_eq!(p.sequence_number, 7);
        }
        other => panic!("expected a ping, got {:?}", other),
    }
}

#[test]
fn say_round_trip() {
    let f = Say::new("A".to_string(), 1, "hi").into_frame();
    assert_eq!(f.encode(), b"[\"say\",\"A\",1,\"hi\"]".to_vec());
    match Bing2BingCommand::from_frame(f).expect("parses") {
        Bing2BingCommand::Say(s) => {
            assert_eq!(s.source, "A");
            assert_eq!(s.sequence_number, 1);
            assert_eq!(s.message, "hi");
        }
        other => panic!("expected a say, got {:?}", other),
    }
}

#[test]
fn whisper_round_trip() {
    let path = vec!["B".to_string(), "C".to_string(), "D".to_string()];
    let f = Whisper::new("A".to_string(), 9, "D", "hello", path).into_frame();
    assert_eq!(
        f.encode(),
        b"[\"whisper\",\"A\",9,\"D\",\"hello\",[\"B\",\"C\",\"D\"]]".to_vec()
    );
    match Bing2BingCommand::from_frame(f).expect("parses") {
        Bing2BingCommand::Whisper(w) => {
            assert_eq!(w.source, "A");
            assert_eq!(w.sequence_number, 9);
            assert_eq!(w.destination, "D");
            assert_eq!(w.message, "hello");
            assert_eq!(w.path, vec!["B", "C", "D"]);
        }
        other => panic!("expected a whisper, got {:?}", other),
    }
}

#[test]
fn register_round_trip() {
    // S6's registration: ["register","X",0,"10.0.0.4","4000"].
    let f = Register::new("X", 0, "10.0.0.4", "4000").into_frame();
    assert_eq!(
        f.encode(),
        b"[\"register\",\"X\",0,\"10.0.0.4\",\"4000\"]".to_vec()
    );
    match Bing2BingCommand::from_frame(f).expect("parses") {
        Bing2BingCommand::Register(r) => {
            assert_eq!(r.peer_name, "X");
            assert_eq!(r.sequence_number, 0);
            assert_eq!(r.ip_address, "10.0.0.4");
            assert_eq!(r.port, "4000");
        }
        other => panic!("expected a register, got {:?}", other),
    }
}

#[test]
fn broadcast_and_deliver_round_trip() {
    let f = Broadcast::new("A".to_string(), 3, vec![1, 2, 3]).into_frame();
    match Bing2BingCommand::from_frame(f).expect("parses") {
        Bing2BingCommand::Broadcast(b) => {
            assert_eq!(b.source, "A");
            assert_eq!(b.sequence_number, 3);
            assert_eq!(b.data, vec![1, 2, 3]);
        }
        other => panic!("expected a broadcast, got {:?}", other),
    }
    let f = Deliver::new("A".to_string(), 4, "B".to_string(), vec![9]).into_frame();
    match Bing2BingCommand::from_frame(f).expect("parses") {
        Bing2BingCommand::Deliver(d) => {
            assert_eq!(d.source, "A");
            assert_eq!(d.sequence_number, 4);
            assert_eq!(d.destination, "B");
            assert_eq!(d.data, vec![9]);
        }
        other => panic!("expected a deliver, got {:?}", other),
    }
}

#[test]
fn extension_round_trip() {
    let payload = Bing2BingFrame::Array(vec![text("x"), Bing2BingFrame::Number(5)]);
    let f = Extension::new("A".to_string(), 5, 77, payload.clone()).into_frame();
    match Bing2BingCommand::from_frame(f).expect("parses") {
        Bing2BingCommand::Extension(e) => {
            assert_eq!(e.source, "A");
            assert_eq!(e.sequence_number, 5);
            assert_eq!(e.extension_id, 77);
            assert!(e.payload.frame_eq(&payload));
        }
        other => panic!("expected an extension, got {:?}", other),
    }
}

#[test]
fn announce_round_trip() {
    let peers = vec![("B".to_string(), 0u32), ("C".to_string(), 12u32)];
    let lat = 40.6943f64.to_bits();
    let lng = (-73.9249f64).to_bits();
    let a = Announce::new(
        "A".to_string(),
        2,
        "10.0.0.1".to_string(),
        4000,
        1,
        "New York".to_string(),
        lat,
        lng,
        peers,
    );
    let f = a.into_frame();
    match Bing2BingCommand::from_frame(f).expect("parses") {
        Bing2BingCommand::Announce(b) => {
            assert_eq!(b.source, "A");
            assert_eq!(b.sequence_number, 2);
            assert_eq!(b.ip_address, "10.0.0.1");
            assert_eq!(b.port, 4000);
            assert_eq!(b.available_incoming, 1);
            assert_eq!(b.city, "New York");
            assert_eq!(f64::from_bits(b.lat), 40.6943);
            assert_eq!(f64::from_bits(b.lng), -73.9249);
            assert_eq!(b.peers, vec![("B".to_string(), 0), ("C".to_string(), 12)]);
        }
        other => panic!("expected an announce, got {:?}", other),
    }
}

#[test]
fn boundary_values_round_trip() {
    // An empty message and the largest sequence number survive the
    // command codec unchanged.
    let f = Say::new("A".to_string(), u64::MAX, "").into_frame();
    match Bing2BingCommand::from_frame(f).expect("parses") {
        Bing2BingCommand::Say(s) => {
            assert_eq!(s.sequence_number, u64::MAX);
            assert_eq!(s.message, "");
        }
        other => panic!("expected a say, got {:?}", other),
    }
}

#[test]
fn tags_match_case_insensitively() {
    let f = Bing2BingFrame::Array(vec![text("PING"), text("A"), Bing2BingFrame::Number(7)]);
    assert!(matches!(
        Bing2BingCommand::from_frame(f),
        Ok(Bing2BingCommand::Ping(_))
    ));
}

#[test]
fn unknown_tag_is_the_unknown_command() {
    let f = Bing2BingFrame::Array(vec![text("dance"), text("A")]);
    assert!(matches!(
        Bing2BingCommand::from_frame(f),
        Ok(Bing2BingCommand::Unknown)
    ));
}

#[test]
fn malformed_commands_are_errors() {
    // Not an array at all.
    assert!(Bing2BingCommand::from_frame(Bing2BingFrame::Number(7)).is_err());
    // An empty array has no tag.
    assert!(Bing2BingCommand::from_frame(Bing2BingFrame::Array(vec![])).is_err());
    // A tag of the wrong kind.
    let f = Bing2BingFrame::Array(vec![Bing2BingFrame::Number(1)]);
    assert!(Bing2BingCommand::from_frame(f).is_err());
    // A known tag with a missing field.
    let f = Bing2BingFrame::Array(vec![text("ping"), text("A")]);
    assert!(Bing2BingCommand::from_frame(f).is_err());
    // A known tag with a trailing element.
    let f = Bing2BingFrame::Array(vec![
        text("ping"),
        text("A"),
        Bing2BingFrame::Number(7),
        Bing2BingFrame::Null,
    ]);
    assert!(Bing2BingCommand::from_frame(f).is_err());
    // A say whose message is not text.
    let f = Bing2BingFrame::Array(vec![
        text("say"),
        text("A"),
        Bing2BingFrame::Number(1),
        Bing2BingFrame::Number(2),
    ]);
    assert!(Bing2BingCommand::from_frame(f).is_err());
}

#[test]
fn bulk_tag_reads_as_string() {
    // A tag or source may arrive as a UTF-8 byte blob.
    let f = Bing2BingFrame::Array(vec![
        Bing2BingFrame::Bulk(b"ping".to_vec()),
        text("A"),
        Bing2BingFrame::Number(7),
    ]);
    assert!(matches!(
        Bing2BingCommand::from_frame(f),
        Ok(Bing2BingCommand::Ping(_))
    ));
}

#[test]
fn command_survives_the_wire() {
    // Encode a command, frame it, read it back, parse it: nothing is
    // lost end to end.
    let f = Say::new("A".to_string(), 1, "hi").into_frame();
    let wire = libb2b::encode_wire(&f).expect("fits");
    let mut conn = libb2b::Connection::new();
    conn.feed(&wire);
    match conn.read_frame() {
        libb2b::ReadOutcome::Frame(back) => match Bing2BingCommand::from_frame(back) {
            Ok(Bing2BingCommand::Say(s)) => {
                assert_eq!(s.source, "A");
                assert_eq!(s.sequence_number, 1);
                assert_eq!(s.message, "hi");
            }
            other => panic!("expected a say, got {:?}", other),
        },
        other => panic!("expected a frame, got {:?}", other),
    }
}
