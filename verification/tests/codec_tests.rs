//! The frame codec on concrete values: exact wire text, round trips,
//! framing, and rejection of malformed input.
use libb2b::Bing2BingFrame;
use libb2b::Connection;
use libb2b::ReadOutcome;

fn decode(bytes: &[u8]) -> Option<Bing2BingFrame> {
    libb2b::decode_frame(&bytes.to_vec())
}

#[test]
fn encode_number() {
    let f = Bing2BingFrame::Number(7);
    assert_eq!(f.encode(), b"7".to_vec());
    let f = Bing2BingFrame::Number(1234567890123456789);
    assert_eq!(f.encode(), b"1234567890123456789".to_vec());
    let f = Bing2BingFrame::Number(u64::MAX);
    assert_eq!(f.encode(), b"18446744073709551615".to_vec());
}

#[test]
fn encode_text_and_null() {
    let f = Bing2BingFrame::Text("hi".to_string());
    assert_eq!(f.encode(), b"\"hi\"".to_vec());
    assert_eq!(Bing2BingFrame::Null.encode(), b"null".to_vec());
}

#[test]
fn encode_ping_command_frame() {
    // S1's frame: ["ping","A",7] travels exactly as written.
    let f = Bing2BingFrame::Array(vec![
        Bing2BingFrame::Text("ping".to_string()),
        Bing2BingFrame::Text("A".to_string()),
        Bing2BingFrame::Number(7),
    ]);
    assert_eq!(f.encode(), b"[\"ping\",\"A\",7]".to_vec());
}

#[test]
fn encode_tagged_forms() {
    assert_eq!(Bing2BingFrame::Float(42).encode(), b"{\"f\":42}".to_vec());
    assert_eq!(
        Bing2BingFrame::Bulk(vec![1, 2, 255]).encode(),
        b"{\"b\":[1,2,255]}".to_vec()
    );
    assert_eq!(Bing2BingFrame::Bulk(vec![]).encode(), b"{\"b\":[]}".to_vec());
    assert_eq!(
        Bing2BingFrame::Latency("A".to_string(), 12).encode(),
        b"{\"l\":[\"A\",12]}".to_vec()
    );
}

#[test]
fn escaping_round_trip() {
    let tricky = "a\"b\\c\u{263a}".to_string();
    let f = Bing2BingFrame::Text(tricky.clone());
    let bytes = f.encode();
    let back = decode(&bytes).expect("decodes");
    assert!(back.frame_eq(&Bing2BingFrame::Text(tricky)));
}

#[test]
fn nested_round_trip() {
    let f = Bing2BingFrame::Array(vec![
        Bing2BingFrame::Array(vec![
            Bing2BingFrame::Text("x".to_string()),
            Bing2BingFrame::Null,
        ]),
        Bing2BingFrame::Number(0),
        Bing2BingFrame::Float(0x4049_0FDB_0000_0000),
        Bing2BingFrame::Bulk(vec![9, 8, 7]),
        Bing2BingFrame::Latency("peer".to_string(), 33),
        Bing2BingFrame::Array(vec![]),
    ]);
    let bytes = f.encode();
    let back = decode(&bytes).expect("decodes");
    assert!(back.frame_eq(&f));
}

#[test]
fn decode_rejects_garbage() {
    assert!(decode(b"").is_none());
    assert!(decode(b"x").is_none());
    assert!(decode(b"\"unterminated").is_none());
    assert!(decode(b"[1,2").is_none());
    assert!(decode(b"nulL").is_none());
    assert!(decode(b"{\"q\":1}").is_none());
    assert!(decode(b"7 ").is_none()); // trailing byte
    assert!(decode(b"{\"b\":[300]}").is_none()); // byte above 255
    assert!(decode(b"\"\xff\"").is_none()); // invalid UTF-8 content
}

#[test]
fn decode_rejects_number_overflow() {
    assert!(decode(b"18446744073709551615").is_some());
    assert!(decode(b"18446744073709551616").is_none());
}

#[test]
fn wire_framing_round_trip() {
    let f = Bing2BingFrame::Array(vec![
        Bing2BingFrame::Text("say".to_string()),
        Bing2BingFrame::Text("A".to_string()),
        Bing2BingFrame::Number(1),
        Bing2BingFrame::Text("hi".to_string()),
    ]);
    let wire = libb2b::encode_wire(&f).expect("fits");
    let payload = f.encode();
    assert_eq!(wire.len(), payload.len() + 4);
    assert_eq!(&wire[4..], payload.as_slice());
    assert_eq!(
        &wire[..4],
        (payload.len() as u32).to_be_bytes().as_slice()
    );

    let mut conn = Connection::new();
    // Feed in two pieces: the first read is pending.
    conn.feed(&wire[..3]);
    assert!(matches!(conn.read_frame(), ReadOutcome::Pending));
    conn.feed(&wire[3..]);
    match conn.read_frame() {
        ReadOutcome::Frame(back) => assert!(back.frame_eq(&f)),
        other => panic!("expected a frame, got {:?}", other),
    }
    assert!(matches!(conn.read_frame(), ReadOutcome::Pending));
}

#[test]
fn wire_corrupt_payload() {
    let mut conn = Connection::new();
    let mut bytes = 3u32.to_be_bytes().to_vec();
    bytes.extend_from_slice(b"abc");
    conn.feed(&bytes);
    assert!(matches!(conn.read_frame(), ReadOutcome::Corrupt));
}

#[test]
fn connection_write_frame_queues_wire_bytes() {
    let mut conn = Connection::new();
    let f = Bing2BingFrame::Number(7);
    assert!(conn.write_frame(&f));
    let queued = conn.take_outbound();
    assert_eq!(queued, vec![0, 0, 0, 1, b'7']);
    assert!(conn.take_outbound().is_empty());
}
