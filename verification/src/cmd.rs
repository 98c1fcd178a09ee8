//! The command model: the tagged operations that frames carry, with
//! their exact grammar and canonical encodings.
use vstd::prelude::*;

use crate::frame::Bing2BingFrame;
use crate::frame::FrameV;
use crate::parse::Parse;
use crate::parse::ParseError;

use crate::announce::Announce;
use crate::broadcast::Broadcast;
use crate::deliver::Deliver;
use crate::extension::Extension;
use crate::ping::Ping;
use crate::register::Register;
use crate::say::Say;
use crate::whisper::Whisper;

verus! {

/// The mathematical value of a command: every field a sequence or a
/// number.
pub enum CommandV {
    Broadcast { source: Seq<char>, sequence_number: u64, data: Seq<u8> },
    Ping { source: Seq<char>, sequence_number: u64 },
    Register { peer_name: Seq<char>, sequence_number: u64, ip_address: Seq<char>, port: Seq<char> },
    Say { source: Seq<char>, sequence_number: u64, message: Seq<char> },
    Deliver { source: Seq<char>, sequence_number: u64, destination: Seq<char>, data: Seq<u8> },
    Announce {
        source: Seq<char>,
        sequence_number: u64,
        ip_address: Seq<char>,
        port: u64,
        available_incoming: u64,
        city: Seq<char>,
        lat_bits: u64,
        lng_bits: u64,
        peers: Seq<(Seq<char>, u32)>,
    },
    Whisper {
        source: Seq<char>,
        sequence_number: u64,
        destination: Seq<char>,
        message: Seq<char>,
        path: Seq<Seq<char>>,
    },
    Extension { source: Seq<char>, sequence_number: u64, extension_id: u64, payload: FrameV },
    Unknown,
}

/// The characters a frame element yields when read as a string: text
/// directly, a byte blob through UTF-8.
pub open spec fn string_of_item(v: FrameV) -> Option<Seq<char>> {
    match v {
        FrameV::Text(s) => Some(s),
        FrameV::Bulk(b) => if vstd::utf8::valid_utf8(b) {
            Some(vstd::utf8::decode_utf8(b))
        } else {
            None
        },
        _ => None,
    }
}

/// A string read off a frame element is the string the element
/// yields.
pub proof fn lemma_string_item(item: FrameV, s: Seq<char>)
    requires
        item == FrameV::Text(s) || (item matches FrameV::Bulk(bb) && vstd::utf8::encode_utf8(s)
            == bb),
    ensures
        string_of_item(item) == Some(s),
{
    if !(item is Text) {
        vstd::utf8::encode_utf8_valid_utf8(s);
        vstd::utf8::encode_utf8_decode_utf8(s);
    }
}

/// ASCII lowercasing of a byte: the letters `A` to `Z` move down into
/// `a` to `z`, every other byte stands.
pub open spec fn lower_byte(b: u8) -> u8 {
    if 65 <= b <= 90 {
        (b + 32) as u8
    } else {
        b
    }
}

/// ASCII lowercasing, byte for byte.
pub open spec fn lower_bytes(s: Seq<u8>) -> Seq<u8> {
    s.map_values(|b: u8| lower_byte(b))
}

/// The command tag under which a string matches, taken
/// case-insensitively over its UTF-8 bytes.
pub open spec fn tag_key(t: Seq<char>) -> Seq<u8> {
    lower_bytes(vstd::utf8::encode_utf8(t))
}

/// The peers list of an announce: every element a latency pair.
pub open spec fn latency_list_from(s: Seq<FrameV>, i: int) -> Option<Seq<(Seq<char>, u32)>>
    decreases s.len() - i,
{
    if i < 0 || i >= s.len() {
        Some(Seq::empty())
    } else {
        match s[i] {
            FrameV::Latency(name, ms) => match latency_list_from(s, i + 1) {
                Some(rest) => Some(seq![(name, ms)] + rest),
                None => None,
            },
            _ => None,
        }
    }
}

/// The path of a whisper: every element a text frame.
pub open spec fn text_list_from(s: Seq<FrameV>, i: int) -> Option<Seq<Seq<char>>>
    decreases s.len() - i,
{
    if i < 0 || i >= s.len() {
        Some(Seq::empty())
    } else {
        match s[i] {
            FrameV::Text(name) => match text_list_from(s, i + 1) {
                Some(rest) => Some(seq![name] + rest),
                None => None,
            },
            _ => None,
        }
    }
}

/// Prefixes `pre` onto a successful list parse.
pub open spec fn opt_list_prepend<T>(pre: Seq<T>, o: Option<Seq<T>>) -> Option<Seq<T>> {
    match o {
        Some(s) => Some(pre + s),
        None => None,
    }
}

/// Prefixing twice is prefixing the concatenation.
pub proof fn lemma_opt_list_prepend_assoc<T>(p1: Seq<T>, p2: Seq<T>, o: Option<Seq<T>>)
    ensures
        opt_list_prepend(p1, opt_list_prepend(p2, o)) == opt_list_prepend(p1 + p2, o),
{
    match o {
        Some(s) => {
            assert(p1 + (p2 + s) =~= (p1 + p2) + s);
        },
        None => {},
    }
}

/// The path strings a whisper carries, as sequences of characters.
pub open spec fn path_view(v: Vec<String>) -> Seq<Seq<char>> {
    Seq::new(v@.len(), |i: int| v@[i]@)
}

/// The peer latency pairs an announce carries, as sequences of
/// characters with their measures.
pub open spec fn peers_view(v: Vec<(String, u32)>) -> Seq<(Seq<char>, u32)> {
    Seq::new(v@.len(), |i: int| (v@[i].0@, v@[i].1))
}

/// The grammar of a ping after its tag: source, sequence number.
pub open spec fn parse_ping(items: Seq<FrameV>) -> Option<CommandV> {
    if items.len() == 3 {
        match (items[1], items[2]) {
            (FrameV::Text(source), FrameV::Number(sequence_number)) => Some(
                CommandV::Ping { source, sequence_number },
            ),
            _ => None,
        }
    } else {
        None
    }
}

/// The grammar of a say after its tag: source, sequence number,
/// message.
pub open spec fn parse_say(items: Seq<FrameV>) -> Option<CommandV> {
    if items.len() == 4 {
        match (string_of_item(items[1]), items[2], items[3]) {
            (Some(source), FrameV::Number(sequence_number), FrameV::Text(message)) => Some(
                CommandV::Say { source, sequence_number, message },
            ),
            _ => None,
        }
    } else {
        None
    }
}

/// The grammar of a broadcast after its tag: source, sequence number,
/// data.
pub open spec fn parse_broadcast(items: Seq<FrameV>) -> Option<CommandV> {
    if items.len() == 4 {
        match (string_of_item(items[1]), items[2], items[3]) {
            (Some(source), FrameV::Number(sequence_number), FrameV::Bulk(data)) => Some(
                CommandV::Broadcast { source, sequence_number, data },
            ),
            _ => None,
        }
    } else {
        None
    }
}

/// The grammar of a deliver after its tag: source, sequence number,
/// destination, data.
pub open spec fn parse_deliver(items: Seq<FrameV>) -> Option<CommandV> {
    if items.len() == 5 {
        match (string_of_item(items[1]), items[2], items[3], items[4]) {
            (
                Some(source),
                FrameV::Number(sequence_number),
                FrameV::Text(destination),
                FrameV::Bulk(data),
            ) => Some(CommandV::Deliver { source, sequence_number, destination, data }),
            _ => None,
        }
    } else {
        None
    }
}

/// The grammar of a register after its tag: peer name, sequence
/// number, ip, port.
pub open spec fn parse_register(items: Seq<FrameV>) -> Option<CommandV> {
    if items.len() == 5 {
        match (string_of_item(items[1]), items[2], items[3], items[4]) {
            (
                Some(peer_name),
                FrameV::Number(sequence_number),
                FrameV::Text(ip_address),
                FrameV::Text(port),
            ) => Some(CommandV::Register { peer_name, sequence_number, ip_address, port }),
            _ => None,
        }
    } else {
        None
    }
}

/// The grammar of a whisper after its tag: source, sequence number,
/// destination, message, path.
pub open spec fn parse_whisper(items: Seq<FrameV>) -> Option<CommandV> {
    if items.len() == 6 {
        match (string_of_item(items[1]), items[2], items[3], items[4], items[5]) {
            (
                Some(source),
                FrameV::Number(sequence_number),
                FrameV::Text(destination),
                FrameV::Text(message),
                FrameV::Array(path_items),
            ) => match text_list_from(path_items, 0) {
                Some(path) => Some(
                    CommandV::Whisper { source, sequence_number, destination, message, path },
                ),
                None => None,
            },
            _ => None,
        }
    } else {
        None
    }
}

/// The grammar of an extension after its tag: source, sequence
/// number, extension id, payload.
pub open spec fn parse_extension(items: Seq<FrameV>) -> Option<CommandV> {
    if items.len() == 5 {
        match (string_of_item(items[1]), items[2], items[3]) {
            (Some(source), FrameV::Number(sequence_number), FrameV::Number(extension_id)) => Some(
                CommandV::Extension { source, sequence_number, extension_id, payload: items[4] },
            ),
            _ => None,
        }
    } else {
        None
    }
}

/// The grammar of an announce after its tag: source, sequence number,
/// ip, port, available incoming, city, latitude, longitude, peers.
pub open spec fn parse_announce(items: Seq<FrameV>) -> Option<CommandV> {
    if items.len() == 10 {
        match (
            string_of_item(items[1]),
            items[2],
            items[3],
            items[4],
            items[5],
            items[6],
            items[7],
            items[8],
            items[9],
        ) {
            (
                Some(source),
                FrameV::Number(sequence_number),
                FrameV::Text(ip_address),
                FrameV::Number(port),
                FrameV::Number(available_incoming),
                FrameV::Text(city),
                FrameV::Float(lat_bits),
                FrameV::Float(lng_bits),
                FrameV::Array(peer_items),
            ) => match latency_list_from(peer_items, 0) {
                Some(peers) => Some(
                    CommandV::Announce {
                        source,
                        sequence_number,
                        ip_address,
                        port,
                        available_incoming,
                        city,
                        lat_bits,
                        lng_bits,
                        peers,
                    },
                ),
                None => None,
            },
            _ => None,
        }
    } else {
        None
    }
}

/// The command a frame means: `None` for a malformed frame (the
/// connection fails), `Some(Unknown)` for a well-formed frame whose
/// tag names no command (ignored silently).
pub open spec fn parse_cmd(v: FrameV) -> Option<CommandV> {
    match v {
        FrameV::Array(items) => if items.len() == 0 {
            None
        } else {
            match string_of_item(items[0]) {
                Some(t) => {
                    let key = tag_key(t);
                    if key == seq![98u8, 114u8, 111u8, 97u8, 100u8, 99u8, 97u8, 115u8, 116u8] {
                        parse_broadcast(items)
                    } else if key == seq![112u8, 105u8, 110u8, 103u8] {
                        parse_ping(items)
                    } else if key == seq![114u8, 101u8, 103u8, 105u8, 115u8, 116u8, 101u8, 114u8] {
                        parse_register(items)
                    } else if key == seq![115u8, 97u8, 121u8] {
                        parse_say(items)
                    } else if key == seq![100u8, 101u8, 108u8, 105u8, 118u8, 101u8, 114u8] {
                        parse_deliver(items)
                    } else if key == seq![
                        97u8,
                        110u8,
                        110u8,
                        111u8,
                        117u8,
                        110u8,
                        99u8,
                        101u8,
                    ] {
                        parse_announce(items)
                    } else if key == seq![119u8, 104u8, 105u8, 115u8, 112u8, 101u8, 114u8] {
                        parse_whisper(items)
                    } else if key == seq![
                        101u8,
                        120u8,
                        116u8,
                        101u8,
                        110u8,
                        115u8,
                        105u8,
                        111u8,
                        110u8,
                    ] {
                        parse_extension(items)
                    } else {
                        Some(CommandV::Unknown)
                    }
                },
                None => None,
            }
        },
        _ => None,
    }
}

/// The canonical frame for a command value; `Unknown` has none and
/// maps to `Null`.
pub open spec fn cmd_frame(c: CommandV) -> FrameV {
    match c {
        CommandV::Ping { source, sequence_number } => FrameV::Array(
            seq![FrameV::Text("ping"@), FrameV::Text(source), FrameV::Number(sequence_number)],
        ),
        CommandV::Say { source, sequence_number, message } => FrameV::Array(
            seq![
                FrameV::Text("say"@),
                FrameV::Text(source),
                FrameV::Number(sequence_number),
                FrameV::Text(message),
            ],
        ),
        CommandV::Broadcast { source, sequence_number, data } => FrameV::Array(
            seq![
                FrameV::Text("broadcast"@),
                FrameV::Text(source),
                FrameV::Number(sequence_number),
                FrameV::Bulk(data),
            ],
        ),
        CommandV::Deliver { source, sequence_number, destination, data } => FrameV::Array(
            seq![
                FrameV::Text("deliver"@),
                FrameV::Text(source),
                FrameV::Number(sequence_number),
                FrameV::Text(destination),
                FrameV::Bulk(data),
            ],
        ),
        CommandV::Register { peer_name, sequence_number, ip_address, port } => FrameV::Array(
            seq![
                FrameV::Text("register"@),
                FrameV::Text(peer_name),
                FrameV::Number(sequence_number),
                FrameV::Text(ip_address),
                FrameV::Text(port),
            ],
        ),
        CommandV::Announce {
            source,
            sequence_number,
            ip_address,
            port,
            available_incoming,
            city,
            lat_bits,
            lng_bits,
            peers,
        } => FrameV::Array(
            seq![
                FrameV::Text("announce"@),
                FrameV::Text(source),
                FrameV::Number(sequence_number),
                FrameV::Text(ip_address),
                FrameV::Number(port),
                FrameV::Number(available_incoming),
                FrameV::Text(city),
                FrameV::Float(lat_bits),
                FrameV::Float(lng_bits),
                FrameV::Array(peers.map_values(|p: (Seq<char>, u32)| FrameV::Latency(p.0, p.1))),
            ],
        ),
        CommandV::Whisper { source, sequence_number, destination, message, path } => FrameV::Array(
            seq![
                FrameV::Text("whisper"@),
                FrameV::Text(source),
                FrameV::Number(sequence_number),
                FrameV::Text(destination),
                FrameV::Text(message),
                FrameV::Array(path.map_values(|p: Seq<char>| FrameV::Text(p))),
            ],
        ),
        CommandV::Extension { source, sequence_number, extension_id, payload } => FrameV::Array(
            seq![
                FrameV::Text("extension"@),
                FrameV::Text(source),
                FrameV::Number(sequence_number),
                FrameV::Number(extension_id),
                payload,
            ],
        ),
        CommandV::Unknown => FrameV::Null,
    }
}

/// The tagged commands that frames carry.
#[derive(Debug)]
pub enum Bing2BingCommand {
    Broadcast(Broadcast),
    Ping(Ping),
    Register(Register),
    Say(Say),
    Deliver(Deliver),
    Announce(Announce),
    Whisper(Whisper),
    Extension(Extension),
    Unknown,
}

impl View for Bing2BingCommand {
    type V = CommandV;

    open spec fn view(&self) -> CommandV {
        match self {
            Bing2BingCommand::Broadcast(c) => c@,
            Bing2BingCommand::Ping(c) => c@,
            Bing2BingCommand::Register(c) => c@,
            Bing2BingCommand::Say(c) => c@,
            Bing2BingCommand::Deliver(c) => c@,
            Bing2BingCommand::Announce(c) => c@,
            Bing2BingCommand::Whisper(c) => c@,
            Bing2BingCommand::Extension(c) => c@,
            Bing2BingCommand::Unknown => CommandV::Unknown,
        }
    }
}

/// The case-insensitive tag key of a command name.
fn lower_key(tag: &str) -> (r: Vec<u8>)
    ensures
        r@ == tag_key(tag@),
{
    let bytes = vstd::string::StrSliceExecFns::as_bytes_vec(tag);
    let mut key: Vec<u8> = Vec::new();
    let mut i: usize = 0;
    while i < bytes.len()
        invariant
            i <= bytes@.len(),
            key@.len() == i as int,
            forall|j: int| 0 <= j < i as int ==> key@[j] == lower_byte(#[trigger] bytes@[j]),
        decreases bytes@.len() - i,
    {
        let b = bytes[i];
        if 65 <= b && b <= 90 {
            key.push(b + 32);
        } else {
            key.push(b);
        }
        i = i + 1;
    }
    proof {
        assert(key@ =~= lower_bytes(bytes@));
    }
    key
}

impl Bing2BingCommand {
    /// Reads a frame as a command: the frame must be an array whose
    /// first element names a command; an array under an unrecognized
    /// name is the `Unknown` command; anything else is an error that
    /// fails the connection.
    #[verifier::rlimit(100)]
    pub fn from_frame(frame: Bing2BingFrame) -> (r: Result<Bing2BingCommand, ParseError>)
        ensures
            match r {
                Ok(c) => parse_cmd(frame@) == Some(c@),
                Err(_) => parse_cmd(frame@) is None,
            },
    {
        let ghost fv = frame@;
        let mut parse = match Parse::new(frame) {
            Ok(p) => p,
            Err(e) => {
                return Err(e);
            },
        };
        let ghost items = parse.items();
        let command_name = match parse.next_string() {
            Ok(s) => s,
            Err(e) => {
                return Err(e);
            },
        };
        proof {
            lemma_string_item(items[0], command_name@);
        }
        let key = lower_key(command_name.as_str());
        let command = if crate::frame::bytes_eq(
            &key,
            &vec![98u8, 114u8, 111u8, 97u8, 100u8, 99u8, 97u8, 115u8, 116u8],
        ) {
            match Broadcast::parse_frames(&mut parse) {
                Ok(c) => Bing2BingCommand::Broadcast(c),
                Err(e) => {
                    return Err(e);
                },
            }
        } else if crate::frame::bytes_eq(&key, &vec![112u8, 105u8, 110u8, 103u8]) {
            match Ping::parse_frames(&mut parse) {
                Ok(c) => Bing2BingCommand::Ping(c),
                Err(e) => {
                    return Err(e);
                },
            }
        } else if crate::frame::bytes_eq(
            &key,
            &vec![114u8, 101u8, 103u8, 105u8, 115u8, 116u8, 101u8, 114u8],
        ) {
            match Register::parse_frames(&mut parse) {
                Ok(c) => Bing2BingCommand::Register(c),
                Err(e) => {
                    return Err(e);
                },
            }
        } else if crate::frame::bytes_eq(&key, &vec![115u8, 97u8, 121u8]) {
            match Say::parse_frames(&mut parse) {
                Ok(c) => Bing2BingCommand::Say(c),
                Err(e) => {
                    return Err(e);
                },
            }
        } else if crate::frame::bytes_eq(
            &key,
            &vec![100u8, 101u8, 108u8, 105u8, 118u8, 101u8, 114u8],
        ) {
            match Deliver::parse_frames(&mut parse) {
                Ok(c) => Bing2BingCommand::Deliver(c),
                Err(e) => {
                    return Err(e);
                },
            }
        } else if crate::frame::bytes_eq(
            &key,
            &vec![97u8, 110u8, 110u8, 111u8, 117u8, 110u8, 99u8, 101u8],
        ) {
            let source = match parse.next_string() {
                Ok(s) => s,
                Err(e) => {
                    return Err(e);
                },
            };
            proof {
                lemma_string_item(items[1], source@);
            }
            let sequence_number = match parse.next_number() {
                Ok(n) => n,
                Err(e) => {
                    return Err(e);
                },
            };
            match Announce::parse_frames(source, sequence_number, &mut parse) {
                Ok(c) => Bing2BingCommand::Announce(c),
                Err(e) => {
                    return Err(e);
                },
            }
        } else if crate::frame::bytes_eq(
            &key,
            &vec![119u8, 104u8, 105u8, 115u8, 112u8, 101u8, 114u8],
        ) {
            match Whisper::parse_frames(&mut parse) {
                Ok(c) => Bing2BingCommand::Whisper(c),
                Err(e) => {
                    return Err(e);
                },
            }
        } else if crate::frame::bytes_eq(
            &key,
            &vec![101u8, 120u8, 116u8, 101u8, 110u8, 115u8, 105u8, 111u8, 110u8],
        ) {
            match Extension::parse_frames(&mut parse) {
                Ok(c) => Bing2BingCommand::Extension(c),
                Err(e) => {
                    return Err(e);
                },
            }
        } else {
            return Ok(Bing2BingCommand::Unknown);
        };
        match parse.finish() {
            Ok(()) => Ok(command),
            Err(e) => Err(e),
        }
    }

    /// Turns a command back into its canonical frame; `Unknown` has
    /// none and becomes `Null`.
    pub fn into_frame(cmd: Bing2BingCommand) -> (r: Bing2BingFrame)
        ensures
            r@ == cmd_frame(cmd@),
    {
        match cmd {
            Bing2BingCommand::Broadcast(c) => c.into_frame(),
            Bing2BingCommand::Ping(c) => c.into_frame(),
            Bing2BingCommand::Register(c) => c.into_frame(),
            Bing2BingCommand::Say(c) => c.into_frame(),
            Bing2BingCommand::Deliver(c) => c.into_frame(),
            Bing2BingCommand::Announce(c) => c.into_frame(),
            Bing2BingCommand::Whisper(c) => c.into_frame(),
            Bing2BingCommand::Extension(c) => c.into_frame(),
            Bing2BingCommand::Unknown => Bing2BingFrame::Null,
        }
    }
}

/// A path rendered as text frames reads back as itself, from any
/// position on.
pub proof fn lemma_text_list_map(path: Seq<Seq<char>>, i: int)
    requires
        0 <= i <= path.len(),
    ensures
        text_list_from(path.map_values(|p: Seq<char>| FrameV::Text(p)), i) == Some(
            path.subrange(i, path.len() as int),
        ),
    decreases path.len() - i,
{
    let m = path.map_values(|p: Seq<char>| FrameV::Text(p));
    if i == path.len() {
        assert(path.subrange(i, path.len() as int) =~= Seq::<Seq<char>>::empty());
    } else {
        lemma_text_list_map(path, i + 1);
        assert(m[i] == FrameV::Text(path[i]));
        assert(seq![path[i]] + path.subrange(i + 1, path.len() as int) =~= path.subrange(
            i,
            path.len() as int,
        ));
    }
}

/// A peers list rendered as latency frames reads back as itself, from
/// any position on.
pub proof fn lemma_latency_list_map(peers: Seq<(Seq<char>, u32)>, i: int)
    requires
        0 <= i <= peers.len(),
    ensures
        latency_list_from(
            peers.map_values(|p: (Seq<char>, u32)| FrameV::Latency(p.0, p.1)),
            i,
        ) == Some(peers.subrange(i, peers.len() as int)),
    decreases peers.len() - i,
{
    let m = peers.map_values(|p: (Seq<char>, u32)| FrameV::Latency(p.0, p.1));
    if i == peers.len() {
        assert(peers.subrange(i, peers.len() as int) =~= Seq::<(Seq<char>, u32)>::empty());
    } else {
        lemma_latency_list_map(peers, i + 1);
        assert(m[i] == FrameV::Latency(peers[i].0, peers[i].1));
        assert(seq![peers[i]] + peers.subrange(i + 1, peers.len() as int) =~= peers.subrange(
            i,
            peers.len() as int,
        ));
    }
}

/// Reading back the canonical frame of any proper command yields that
/// command, field for field: the command codec loses nothing.
#[verifier::rlimit(100)]
pub proof fn lemma_cmd_round_trip(c: CommandV)
    requires
        !(c is Unknown),
    ensures
        parse_cmd(cmd_frame(c)) == Some(c),
{
    broadcast use vstd::string::group_string_axioms;

    let items = cmd_frame(c)->Array_0;
    reveal_strlit("broadcast");
    reveal_strlit("ping");
    reveal_strlit("register");
    reveal_strlit("say");
    reveal_strlit("deliver");
    reveal_strlit("announce");
    reveal_strlit("whisper");
    reveal_strlit("extension");
    let kb = seq![98u8, 114u8, 111u8, 97u8, 100u8, 99u8, 97u8, 115u8, 116u8];
    let kp = seq![112u8, 105u8, 110u8, 103u8];
    let kr = seq![114u8, 101u8, 103u8, 105u8, 115u8, 116u8, 101u8, 114u8];
    let ks = seq![115u8, 97u8, 121u8];
    let kd = seq![100u8, 101u8, 108u8, 105u8, 118u8, 101u8, 114u8];
    let ka = seq![97u8, 110u8, 110u8, 111u8, 117u8, 110u8, 99u8, 101u8];
    let kw = seq![119u8, 104u8, 105u8, 115u8, 112u8, 101u8, 114u8];
    let ke = seq![101u8, 120u8, 116u8, 101u8, 110u8, 115u8, 105u8, 111u8, 110u8];
    match c {
        CommandV::Broadcast { source, sequence_number, data } => {
            lemma_tag_key_ascii("broadcast"@);
            assert forall|i: int|
                0 <= i < tag_key("broadcast"@).len() implies tag_key("broadcast"@)[i] == kb[i] by {
                assert(tag_key("broadcast"@)[i] == lower_byte("broadcast"@[i] as u8));
            }
            assert(tag_key("broadcast"@) =~= kb);
        },
        CommandV::Ping { source, sequence_number } => {
            lemma_tag_key_ascii("ping"@);
            assert forall|i: int|
                0 <= i < tag_key("ping"@).len() implies tag_key("ping"@)[i] == kp[i] by {
                assert(tag_key("ping"@)[i] == lower_byte("ping"@[i] as u8));
            }
            assert(tag_key("ping"@) =~= kp);
            assert(tag_key("ping"@) != kb);
        },
        CommandV::Register { peer_name, sequence_number, ip_address, port } => {
            lemma_tag_key_ascii("register"@);
            assert forall|i: int|
                0 <= i < tag_key("register"@).len() implies tag_key("register"@)[i] == kr[i] by {
                assert(tag_key("register"@)[i] == lower_byte("register"@[i] as u8));
            }
            assert(tag_key("register"@) =~= kr);
            assert(tag_key("register"@) != kb && tag_key("register"@) != kp);
        },
        CommandV::Say { source, sequence_number, message } => {
            lemma_tag_key_ascii("say"@);
            assert forall|i: int|
                0 <= i < tag_key("say"@).len() implies tag_key("say"@)[i] == ks[i] by {
                assert(tag_key("say"@)[i] == lower_byte("say"@[i] as u8));
            }
            assert(tag_key("say"@) =~= ks);
            assert(tag_key("say"@) != kb && tag_key("say"@) != kp && tag_key("say"@) != kr);
        },
        CommandV::Deliver { source, sequence_number, destination, data } => {
            lemma_tag_key_ascii("deliver"@);
            assert forall|i: int|
                0 <= i < tag_key("deliver"@).len() implies tag_key("deliver"@)[i] == kd[i] by {
                assert(tag_key("deliver"@)[i] == lower_byte("deliver"@[i] as u8));
            }
            assert(tag_key("deliver"@) =~= kd);
            assert(tag_key("deliver"@) != kb && tag_key("deliver"@) != kp && tag_key("deliver"@)
                != kr && tag_key("deliver"@) != ks);
        },
        CommandV::Announce {
            source,
            sequence_number,
            ip_address,
            port,
            available_incoming,
            city,
            lat_bits,
            lng_bits,
            peers,
        } => {
            lemma_tag_key_ascii("announce"@);
            assert forall|i: int|
                0 <= i < tag_key("announce"@).len() implies tag_key("announce"@)[i] == ka[i] by {
                assert(tag_key("announce"@)[i] == lower_byte("announce"@[i] as u8));
            }
            assert(tag_key("announce"@) =~= ka);
            assert(tag_key("announce"@)[0] == 97 && kr[0] == 114);
            assert(tag_key("announce"@) != kb && tag_key("announce"@) != kp && tag_key(
                "announce"@,
            ) != kr && tag_key("announce"@) != ks && tag_key("announce"@) != kd);
            lemma_latency_list_map(peers, 0);
            assert(peers.subrange(0, peers.len() as int) =~= peers);
        },
        CommandV::Whisper { source, sequence_number, destination, message, path } => {
            lemma_tag_key_ascii("whisper"@);
            assert forall|i: int|
                0 <= i < tag_key("whisper"@).len() implies tag_key("whisper"@)[i] == kw[i] by {
                assert(tag_key("whisper"@)[i] == lower_byte("whisper"@[i] as u8));
            }
            assert(tag_key("whisper"@) =~= kw);
            assert(tag_key("whisper"@)[0] == 119 && kd[0] == 100);
            assert(tag_key("whisper"@) != kb && tag_key("whisper"@) != kp && tag_key("whisper"@)
                != kr && tag_key("whisper"@) != ks && tag_key("whisper"@) != kd && tag_key(
                "whisper"@,
            ) != ka);
            lemma_text_list_map(path, 0);
            assert(path.subrange(0, path.len() as int) =~= path);
        },
        CommandV::Extension { source, sequence_number, extension_id, payload } => {
            lemma_tag_key_ascii("extension"@);
            assert forall|i: int|
                0 <= i < tag_key("extension"@).len() implies tag_key("extension"@)[i] == ke[i] by {
                assert(tag_key("extension"@)[i] == lower_byte("extension"@[i] as u8));
            }
            assert(tag_key("extension"@) =~= ke);
            assert(tag_key("extension"@)[0] == 101 && kb[0] == 98);
            assert(tag_key("extension"@) != kb && tag_key("extension"@) != kp && tag_key(
                "extension"@,
            ) != kr && tag_key("extension"@) != ks && tag_key("extension"@) != kd && tag_key(
                "extension"@,
            ) != ka && tag_key("extension"@) != kw);
        },
        CommandV::Unknown => {},
    }
}

/// For an all-ASCII tag, the key bytes are the lowercased characters,
/// one byte each.
pub proof fn lemma_tag_key_ascii(t: Seq<char>)
    requires
        vstd::utf8::is_ascii_chars(t),
    ensures
        tag_key(t).len() == t.len(),
        forall|i: int| 0 <= i < t.len() ==> tag_key(t)[i] == lower_byte(#[trigger] t[i] as u8),
{
    vstd::utf8::is_ascii_chars_encode_utf8(t);
    let e = vstd::utf8::encode_utf8(t);
    assert forall|i: int| 0 <= i < t.len() implies tag_key(t)[i] == lower_byte(
        #[trigger] t[i] as u8,
    ) by {
        assert(e[i] == t[i] as u8);
        assert(lower_bytes(e)[i] == lower_byte(e[i]));
    }
}

} // verus!
