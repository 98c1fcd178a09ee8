//! The announce command: the topology beacon each peer emits, telling
//! the mesh its address, spare inbound capacity, location and
//! neighbours.
use vstd::prelude::*;

use crate::cmd::latency_list_from;
use crate::cmd::opt_list_prepend;
use crate::cmd::peers_view;
use crate::cmd::string_of_item;
use crate::cmd::CommandV;
use crate::frame::frames_view;
use crate::frame::Bing2BingFrame;
use crate::frame::FrameV;
use crate::parse::Parse;
use crate::parse::ParseError;

verus! {

/// A topology beacon from `source`. The latitude and longitude travel
/// as the bit patterns of 64-bit floats.
#[derive(Debug, Clone)]
pub struct Announce {
    pub source: String,
    pub sequence_number: u64,
    pub ip_address: String,
    pub port: u64,
    pub available_incoming: u64,
    pub city: String,
    pub lat: u64,
    pub lng: u64,
    pub peers: Vec<(String, u32)>,
}

impl View for Announce {
    type V = CommandV;

    open spec fn view(&self) -> CommandV {
        CommandV::Announce {
            source: self.source@,
            sequence_number: self.sequence_number,
            ip_address: self.ip_address@,
            port: self.port,
            available_incoming: self.available_incoming,
            city: self.city@,
            lat_bits: self.lat,
            lng_bits: self.lng,
            peers: peers_view(self.peers),
        }
    }
}

impl Announce {
    /// An announce with the given envelope, address, capacity,
    /// location (as float bit patterns) and neighbour list.
    pub fn new(
        source: String,
        sequence_number: u64,
        ip_address: String,
        port: u64,
        available_incoming: u64,
        city: String,
        lat: u64,
        lng: u64,
        peers: Vec<(String, u32)>,
    ) -> (r: Announce)
        ensures
            r@ == (CommandV::Announce {
                source: source@,
                sequence_number,
                ip_address: ip_address@,
                port,
                available_incoming,
                city: city@,
                lat_bits: lat,
                lng_bits: lng,
                peers: peers_view(peers),
            }),
    {
        Announce {
            source,
            sequence_number,
            ip_address,
            port,
            available_incoming,
            city,
            lat,
            lng,
            peers,
        }
    }

    /// Reads the fields after the envelope: ip, port, available
    /// incoming, city, latitude, longitude, peers; the beacon must end
    /// there.
    pub(crate) fn parse_frames(source: String, sequence_number: u64, parse: &mut Parse) -> (r:
        Result<Announce, ParseError>)
        requires
            old(parse).wf(),
        ensures
            final(parse).wf(),
            final(parse).items() == old(parse).items(),
            match r {
                Ok(c) => {
                    let items = old(parse).items();
                    let at = old(parse).at();
                    &&& at + 7 == items.len()
                    &&& c@ matches CommandV::Announce {
                        source: src,
                        sequence_number: sq,
                        ip_address,
                        port,
                        available_incoming,
                        city,
                        lat_bits,
                        lng_bits,
                        peers,
                    } && src == source@ && sq == sequence_number && items[at] == FrameV::Text(
                        ip_address,
                    ) && items[at + 1] == FrameV::Number(port) && items[at + 2] == FrameV::Number(
                        available_incoming,
                    ) && items[at + 3] == FrameV::Text(city) && items[at + 4] == FrameV::Float(
                        lat_bits,
                    ) && items[at + 5] == FrameV::Float(lng_bits) && (items[at + 6]
                        matches FrameV::Array(peer_items) && latency_list_from(peer_items, 0)
                        == Some(peers))
                    &&& final(parse).at() == at + 7
                },
                Err(_) => {
                    let items = old(parse).items();
                    let at = old(parse).at();
                    !(at + 7 == items.len() && items[at] is Text && items[at + 1] is Number
                        && items[at + 2] is Number && items[at + 3] is Text && items[at + 4]
                        is Float && items[at + 5] is Float && (items[at + 6]
                        matches FrameV::Array(peer_items) && latency_list_from(peer_items, 0)
                        is Some))
                },
            },
    {
        let ip_address = match parse.next_text() {
            Ok(s) => s,
            Err(e) => {
                return Err(e);
            },
        };
        let port = match parse.next_number() {
            Ok(n) => n,
            Err(e) => {
                return Err(e);
            },
        };
        let available_incoming = match parse.next_number() {
            Ok(n) => n,
            Err(e) => {
                return Err(e);
            },
        };
        let city = match parse.next_text() {
            Ok(s) => s,
            Err(e) => {
                return Err(e);
            },
        };
        let lat = match parse.next_float() {
            Ok(bits) => bits,
            Err(e) => {
                return Err(e);
            },
        };
        let lng = match parse.next_float() {
            Ok(bits) => bits,
            Err(e) => {
                return Err(e);
            },
        };
        let peer_frames = match parse.next_array() {
            Ok(v) => v,
            Err(e) => {
                return Err(e);
            },
        };
        let peers = match Announce::parse_peer_info_frames(peer_frames) {
            Ok(p) => p,
            Err(e) => {
                return Err(e);
            },
        };
        match parse.finish() {
            Ok(()) => Ok(
                Announce {
                    source,
                    sequence_number,
                    ip_address,
                    port,
                    available_incoming,
                    city,
                    lat,
                    lng,
                    peers,
                },
            ),
            Err(e) => Err(e),
        }
    }

    /// Reads a peers array: every element must be a latency pair.
    pub(crate) fn parse_peer_info_frames(peer_frames: Vec<Bing2BingFrame>) -> (r: Result<
        Vec<(String, u32)>,
        ParseError,
    >)
        ensures
            match r {
                Ok(peers) => latency_list_from(frames_view(peer_frames), 0) == Some(
                    peers_view(peers),
                ),
                Err(_) => latency_list_from(frames_view(peer_frames), 0) is None,
            },
    {
        let ghost sv = frames_view(peer_frames);
        proof {
            crate::frame::lemma_frames_view(peer_frames);
        }
        let mut ret: Vec<(String, u32)> = Vec::new();
        let mut i: usize = 0;
        proof {
            assert(opt_list_prepend(peers_view(ret), latency_list_from(sv, 0))
                == latency_list_from(sv, 0)) by {
                assert(peers_view(ret) =~= Seq::<(Seq<char>, u32)>::empty());
                match latency_list_from(sv, 0) {
                    Some(s) => {
                        assert(Seq::<(Seq<char>, u32)>::empty() + s =~= s);
                    },
                    None => {},
                }
            }
        }
        while i < peer_frames.len()
            invariant
                i <= peer_frames@.len(),
                sv == frames_view(peer_frames),
                sv.len() == peer_frames@.len(),
                forall|j: int|
                    0 <= j < peer_frames@.len() ==> sv[j] == crate::frame::frame_view(
                        #[trigger] peer_frames@[j],
                    ),
                latency_list_from(sv, 0) == opt_list_prepend(peers_view(ret), latency_list_from(
                    sv,
                    i as int,
                )),
            decreases peer_frames@.len() - i,
        {
            match &peer_frames[i] {
                Bing2BingFrame::Latency(peer_name, latency) => {
                    let ghost pre = peers_view(ret);
                    let peer_name = peer_name.clone();
                    let latency = *latency;
                    let ghost nv = peer_name@;
                    proof {
                        assert(sv[i as int] == FrameV::Latency(nv, latency));
                        crate::cmd::lemma_opt_list_prepend_assoc(
                            pre,
                            seq![(nv, latency)],
                            latency_list_from(sv, i + 1),
                        );
                    }
                    ret.push((peer_name, latency));
                    proof {
                        assert(peers_view(ret) =~= pre + seq![(nv, latency)]);
                    }
                },
                _ => {
                    proof {
                        assert(!(sv[i as int] is Latency));
                    }
                    return Err(ParseError::WrongKind);
                },
            }
            i = i + 1;
        }
        proof {
            match latency_list_from(sv, 0) {
                Some(s) => {
                    assert(peers_view(ret) + Seq::<(Seq<char>, u32)>::empty() =~= peers_view(ret));
                },
                None => {},
            }
        }
        Ok(ret)
    }

    /// Turns this command into its canonical frame.
    pub fn into_frame(self) -> (r: Bing2BingFrame)
        ensures
            r@ == crate::cmd::cmd_frame(self@),
    {
        let ghost me = self@;
        let ghost pv = peers_view(self.peers);
        let mut cmd: Vec<Bing2BingFrame> = Vec::new();
        cmd.push(Bing2BingFrame::Text("announce".to_owned()));
        cmd.push(Bing2BingFrame::Text(self.source));
        cmd.push(Bing2BingFrame::Number(self.sequence_number));
        cmd.push(Bing2BingFrame::Text(self.ip_address));
        cmd.push(Bing2BingFrame::Number(self.port));
        cmd.push(Bing2BingFrame::Number(self.available_incoming));
        cmd.push(Bing2BingFrame::Text(self.city));
        cmd.push(Bing2BingFrame::Float(self.lat));
        cmd.push(Bing2BingFrame::Float(self.lng));
        let mut peers: Vec<Bing2BingFrame> = Vec::new();
        let list = self.peers;
        let mut i: usize = 0;
        while i < list.len()
            invariant
                i <= list@.len(),
                pv == peers_view(list),
                peers@.len() == i as int,
                forall|j: int|
                    0 <= j < i as int ==> crate::frame::frame_view(#[trigger] peers@[j])
                        == FrameV::Latency(pv[j].0, pv[j].1),
            decreases list@.len() - i,
        {
            let (peer, time) = (list[i].0.clone(), list[i].1);
            peers.push(Bing2BingFrame::Latency(peer, time));
            i = i + 1;
        }
        proof {
            crate::frame::lemma_frames_view(peers);
            assert(frames_view(peers) =~= pv.map_values(
                |p: (Seq<char>, u32)| FrameV::Latency(p.0, p.1),
            ));
        }
        cmd.push(Bing2BingFrame::Array(peers));
        let r = Bing2BingFrame::Array(cmd);
        proof {
            crate::frame::lemma_frames_view(r->Array_0);
            assert(frames_view(r->Array_0) =~= crate::cmd::cmd_frame(me)->Array_0);
        }
        r
    }
}

} // verus!
