//! The message engine: what one received command does to a peer's
//! state, expressed as explicit effects. The surrounding process
//! performs each effect — an enqueue to a worker, a write back on the
//! receiving socket, a delivery to the local client, a new outbound
//! connection — and owns all sockets and tasks.
use vstd::prelude::*;

use crate::announce::Announce;
use crate::broadcast::Broadcast;
use crate::cmd::cmd_frame;
use crate::cmd::CommandV;
use crate::deliver::Deliver;
use crate::extension::Extension;
use crate::frame::Bing2BingFrame;
use crate::frame::FrameV;
use crate::peer::PeerData;
use crate::peer::PeerDataV;
use crate::peer_map::broadcast_spec;
use crate::peer_map::contains_name;
use crate::peer_map::sends_view;
use crate::peer_map::PeerMap;
use crate::ping::Ping;
use crate::processed::ProcessedCommands;
use crate::processed::DEDUP_WINDOW_MS;
use crate::say::Say;
use crate::ttl_map::TtlMap;
use crate::whisper::Whisper;

verus! {

/// One thing the process must do on the engine's behalf.
#[derive(Debug)]
pub enum Effect {
    /// Enqueue `frame` on the outbound worker named `peer`.
    SendToPeer { peer: String, frame: Bing2BingFrame },
    /// Hand a chat line to the local client channel.
    DeliverSay { source: String, message: String },
    /// Write `frame` back on the connection the command came in on.
    Respond { frame: Bing2BingFrame },
    /// Open an outbound connection to `peer` at the given address and
    /// register it.
    Connect { peer: String, ip_address: String, port: u64 },
    /// Log that a register command reached a peer; peers do not serve
    /// registrations.
    RejectRegister,
}

/// The mathematical value of an effect.
pub enum EffectV {
    SendToPeer { peer: Seq<char>, frame: FrameV },
    DeliverSay { source: Seq<char>, message: Seq<char> },
    Respond { frame: FrameV },
    Connect { peer: Seq<char>, ip_address: Seq<char>, port: u64 },
    RejectRegister,
}

impl View for Effect {
    type V = EffectV;

    open spec fn view(&self) -> EffectV {
        match self {
            Effect::SendToPeer { peer, frame } => EffectV::SendToPeer {
                peer: peer@,
                frame: frame@,
            },
            Effect::DeliverSay { source, message } => EffectV::DeliverSay {
                source: source@,
                message: message@,
            },
            Effect::Respond { frame } => EffectV::Respond { frame: frame@ },
            Effect::Connect { peer, ip_address, port } => EffectV::Connect {
                peer: peer@,
                ip_address: ip_address@,
                port: *port,
            },
            Effect::RejectRegister => EffectV::RejectRegister,
        }
    }
}

/// The values of a list of effects, in order.
pub open spec fn effects_view(v: Vec<Effect>) -> Seq<EffectV> {
    Seq::new(v@.len(), |i: int| v@[i]@)
}

/// Sends turned into effects, one for one.
pub open spec fn send_effects(sends: Seq<(Seq<char>, FrameV)>) -> Seq<EffectV> {
    sends.map_values(|s: (Seq<char>, FrameV)| EffectV::SendToPeer { peer: s.0, frame: s.1 })
}

/// The envelope source a command is deduplicated under; a register is
/// keyed by the peer it names.
pub open spec fn cmd_source(c: CommandV) -> Seq<char> {
    match c {
        CommandV::Broadcast { source, .. } => source,
        CommandV::Ping { source, .. } => source,
        CommandV::Register { peer_name, .. } => peer_name,
        CommandV::Say { source, .. } => source,
        CommandV::Deliver { source, .. } => source,
        CommandV::Announce { source, .. } => source,
        CommandV::Whisper { source, .. } => source,
        CommandV::Extension { source, .. } => source,
        CommandV::Unknown => Seq::empty(),
    }
}

/// The envelope sequence number a command is deduplicated under.
pub open spec fn cmd_sequence_number(c: CommandV) -> u64 {
    match c {
        CommandV::Broadcast { sequence_number, .. } => sequence_number,
        CommandV::Ping { sequence_number, .. } => sequence_number,
        CommandV::Register { sequence_number, .. } => sequence_number,
        CommandV::Say { sequence_number, .. } => sequence_number,
        CommandV::Deliver { sequence_number, .. } => sequence_number,
        CommandV::Announce { sequence_number, .. } => sequence_number,
        CommandV::Whisper { sequence_number, .. } => sequence_number,
        CommandV::Extension { sequence_number, .. } => sequence_number,
        CommandV::Unknown => 0,
    }
}

/// True for the commands the dedup gate watches: everything except
/// pings, which carry no propagation risk, and unknown commands,
/// which carry no identity.
pub open spec fn uses_dedup(c: CommandV) -> bool {
    !(c is Ping) && !(c is Unknown)
}

/// The effects of applying one command, given the current outbound
/// registry and, for an announce, the drawn `roll`.
pub open spec fn apply_spec(c: CommandV, peers: Seq<(Seq<char>, u32)>, roll: u64) -> Seq<
    EffectV,
> {
    match c {
        CommandV::Ping { source, sequence_number } => seq![
            EffectV::Respond { frame: FrameV::Number(sequence_number) },
        ],
        CommandV::Say { source, sequence_number, message } => seq![
            EffectV::DeliverSay { source, message },
        ] + send_effects(broadcast_spec(peers, source, cmd_frame(c))),
        CommandV::Broadcast { source, .. } => send_effects(
            broadcast_spec(peers, source, cmd_frame(c)),
        ),
        CommandV::Deliver { source, .. } => send_effects(
            broadcast_spec(peers, source, cmd_frame(c)),
        ),
        CommandV::Extension { source, .. } => send_effects(
            broadcast_spec(peers, source, cmd_frame(c)),
        ),
        CommandV::Register { .. } => seq![EffectV::RejectRegister],
        CommandV::Whisper { source, sequence_number, destination, message, path } => if path.len()
            == 0 {
            Seq::empty()
        } else {
            let rest = path.drop_first();
            if rest.len() == 0 {
                Seq::empty()
            } else {
                let onward = CommandV::Whisper {
                    source,
                    sequence_number,
                    destination,
                    message,
                    path: rest,
                };
                if contains_name(peers, rest[0]) {
                    seq![EffectV::SendToPeer { peer: rest[0], frame: cmd_frame(onward) }]
                } else {
                    Seq::empty()
                }
            }
        },
        CommandV::Announce {
            source,
            sequence_number,
            ip_address,
            port,
            available_incoming,
            ..
        } => send_effects(broadcast_spec(peers, source, cmd_frame(c))) + (
        if available_incoming >= 1 && !contains_name(peers, source) && roll == 0 {
            seq![EffectV::Connect { peer: source, ip_address, port }]
        } else {
            Seq::empty()
        }),
        CommandV::Unknown => Seq::empty(),
    }
}

/// Relies on `rand::thread_rng` and `Rng::gen_range`: the draw lies in
/// `[0, bound)`; which value comes out is chance.
#[verifier::external_body]
fn draw(bound: u64) -> (r: u64)
    requires
        bound >= 1,
    ensures
        r < bound,
{
    rand::Rng::gen_range(&mut rand::thread_rng(), 0..bound)
}

impl Ping {
    /// A ping answers with one bare number frame carrying its sequence
    /// number, on the connection it arrived on, and propagates
    /// nowhere.
    pub fn apply(&self) -> (r: Vec<Effect>)
        ensures
            effects_view(r) == apply_spec(self@, Seq::<(Seq<char>, u32)>::empty(), 0),
            effects_view(r) =~= seq![
                EffectV::Respond { frame: FrameV::Number(self.sequence_number) },
            ],
    {
        let mut out: Vec<Effect> = Vec::new();
        out.push(Effect::Respond { frame: Bing2BingFrame::Number(self.sequence_number) });
        proof {
            assert(effects_view(out) =~= apply_spec(self@, Seq::<(Seq<char>, u32)>::empty(), 0));
        }
        out
    }
}

/// The broadcast sends of a frame, as effects.
fn broadcast_effects_exec(peers: &PeerMap, except: &str, frame: &Bing2BingFrame) -> (r: Vec<
    Effect,
>)
    ensures
        effects_view(r) == send_effects(broadcast_spec(peers@, except@, frame@)),
{
    let sends = peers.broadcast(except, frame);
    let ghost sv = sends_view(sends);
    let mut out: Vec<Effect> = Vec::new();
    let mut i: usize = 0;
    while i < sends.len()
        invariant
            i <= sends@.len(),
            sv == sends_view(sends),
            sv.len() == sends@.len(),
            forall|j: int|
                0 <= j < sends@.len() ==> sv[j] == ((#[trigger] sends@[j]).0@, sends@[j].1@),
            effects_view(out) == send_effects(sv.subrange(0, i as int)),
        decreases sends@.len() - i,
    {
        let ghost pre = effects_view(out);
        let entry = Effect::SendToPeer {
            peer: sends[i].0.clone(),
            frame: sends[i].1.clone(),
        };
        out.push(entry);
        proof {
            assert(effects_view(out) =~= pre.push(
                EffectV::SendToPeer { peer: sv[i as int].0, frame: sv[i as int].1 },
            ));
            assert(sv.subrange(0, i + 1) =~= sv.subrange(0, i as int).push(sv[i as int]));
            assert(effects_view(out) =~= send_effects(sv.subrange(0, i + 1)));
        }
        i = i + 1;
    }
    proof {
        assert(sv.subrange(0, sv.len() as int) =~= sv);
    }
    out
}

impl Say {
    /// A say is delivered to the local client and re-broadcast to
    /// every outbound peer except its source.
    pub fn apply(&self, peers: &PeerMap) -> (r: Vec<Effect>)
        ensures
            effects_view(r) == apply_spec(self@, peers@, 0),
    {
        let frame = Say::new(
            self.source.clone(),
            self.sequence_number,
            self.message.as_str(),
        ).into_frame();
        let mut out: Vec<Effect> = Vec::new();
        out.push(
            Effect::DeliverSay { source: self.source.clone(), message: self.message.clone() },
        );
        let ghost first = effects_view(out);
        let sends = broadcast_effects_exec(peers, self.source.as_str(), &frame);
        let mut i: usize = 0;
        let ghost sendsv = effects_view(sends);
        while i < sends.len()
            invariant
                i <= sends@.len(),
                sendsv == effects_view(sends),
                sendsv.len() == sends@.len(),
                forall|j: int| 0 <= j < sends@.len() ==> sendsv[j] == (#[trigger] sends@[j])@,
                effects_view(out) == first + sendsv.subrange(0, i as int),
            decreases sends@.len() - i,
        {
            let ghost pre = effects_view(out);
            let e = match &sends[i] {
                Effect::SendToPeer { peer, frame } => Effect::SendToPeer {
                    peer: peer.clone(),
                    frame: frame.clone(),
                },
                Effect::DeliverSay { source, message } => Effect::DeliverSay {
                    source: source.clone(),
                    message: message.clone(),
                },
                Effect::Respond { frame } => Effect::Respond { frame: frame.clone() },
                Effect::Connect { peer, ip_address, port } => Effect::Connect {
                    peer: peer.clone(),
                    ip_address: ip_address.clone(),
                    port: *port,
                },
                Effect::RejectRegister => Effect::RejectRegister,
            };
            proof {
                assert(e@ == sends@[i as int]@);
            }
            out.push(e);
            proof {
                assert(sendsv.subrange(0, i + 1) =~= sendsv.subrange(0, i as int).push(
                    sendsv[i as int],
                ));
                assert(effects_view(out) =~= pre.push(sendsv[i as int]));
            }
            i = i + 1;
        }
        proof {
            assert(sendsv.subrange(0, sendsv.len() as int) =~= sendsv);
            assert(effects_view(out) =~= apply_spec(self@, peers@, 0));
        }
        out
    }
}

impl Broadcast {
    /// A broadcast is re-sent to every outbound peer except its
    /// source.
    pub fn apply(&self, peers: &PeerMap) -> (r: Vec<Effect>)
        ensures
            effects_view(r) == apply_spec(self@, peers@, 0),
    {
        let frame = Broadcast::new(
            self.source.clone(),
            self.sequence_number,
            self.data.clone(),
        ).into_frame();
        broadcast_effects_exec(peers, self.source.as_str(), &frame)
    }
}

impl Deliver {
    /// A deliver is re-sent to every outbound peer except its source;
    /// routing it along a shortest path is an open extension point.
    pub fn apply(&self, peers: &PeerMap) -> (r: Vec<Effect>)
        ensures
            effects_view(r) == apply_spec(self@, peers@, 0),
    {
        let frame = Deliver::new(
            self.source.clone(),
            self.sequence_number,
            self.destination.clone(),
            self.data.clone(),
        ).into_frame();
        broadcast_effects_exec(peers, self.source.as_str(), &frame)
    }
}

impl Extension {
    /// An extension is re-sent to every outbound peer except its
    /// source; a receiver with a handler for its id may also act on
    /// the payload.
    pub fn apply(&self, peers: &PeerMap) -> (r: Vec<Effect>)
        ensures
            effects_view(r) == apply_spec(self@, peers@, 0),
    {
        let frame = Extension::new(
            self.source.clone(),
            self.sequence_number,
            self.extension_id,
            self.payload.clone(),
        ).into_frame();
        broadcast_effects_exec(peers, self.source.as_str(), &frame)
    }
}

impl Whisper {
    /// A whisper hops: the head of the path is dropped, and the frame,
    /// now carrying the shortened path, is sent to the peer the new
    /// head names. An empty or emptied path sends nothing, and a hop
    /// to an unregistered peer is silently dropped.
    pub fn apply(&self, peers: &PeerMap) -> (r: Vec<Effect>)
        ensures
            effects_view(r) == apply_spec(self@, peers@, 0),
    {
        let ghost pv = crate::cmd::path_view(self.path);
        if self.path.len() == 0 {
            let out: Vec<Effect> = Vec::new();
            proof {
                assert(effects_view(out) =~= apply_spec(self@, peers@, 0));
            }
            return out;
        }
        let mut rest: Vec<String> = Vec::new();
        let mut i: usize = 1;
        while i < self.path.len()
            invariant
                1 <= i <= self.path@.len(),
                pv == crate::cmd::path_view(self.path),
                pv.len() == self.path@.len(),
                forall|j: int| 0 <= j < self.path@.len() ==> pv[j] == (#[trigger] self.path@[j])@,
                crate::cmd::path_view(rest) == pv.subrange(1, i as int),
            decreases self.path@.len() - i,
        {
            let ghost pre = crate::cmd::path_view(rest);
            let name = self.path[i].clone();
            rest.push(name);
            proof {
                assert(crate::cmd::path_view(rest) =~= pre.push(pv[i as int]));
                assert(pv.subrange(1, i + 1) =~= pv.subrange(1, i as int).push(pv[i as int]));
            }
            i = i + 1;
        }
        proof {
            assert(pv.subrange(1, pv.len() as int) =~= pv.drop_first());
        }
        if rest.len() == 0 {
            let out: Vec<Effect> = Vec::new();
            proof {
                assert(effects_view(out) =~= apply_spec(self@, peers@, 0));
            }
            return out;
        }
        let target = rest[0].clone();
        let frame = Whisper::new(
            self.source.clone(),
            self.sequence_number,
            self.destination.as_str(),
            self.message.as_str(),
            rest,
        ).into_frame();
        let sends = peers.send_to_peer(self.source.as_str(), target.as_str(), &frame);
        let mut out: Vec<Effect> = Vec::new();
        if sends.len() > 0 {
            let entry = Effect::SendToPeer {
                peer: sends[0].0.clone(),
                frame: sends[0].1.clone(),
            };
            proof {
                assert(sends_view(sends)[0] == (sends@[0].0@, sends@[0].1@));
            }
            out.push(entry);
        }
        proof {
            if crate::peer_map::contains_name(peers@, pv.drop_first()[0]) {
                assert(sends_view(sends).len() == 1);
                assert(effects_view(out) =~= apply_spec(self@, peers@, 0));
            } else {
                assert(sends_view(sends).len() == 0);
                assert(effects_view(out) =~= apply_spec(self@, peers@, 0));
            }
        }
        out
    }
}

/// How long an adjacency record lives without a refreshing announce,
/// in milliseconds.
pub const ADJACENCY_TTL_MS: u64 = 30000;

impl Announce {
    /// An announce, given the drawn `roll`: the sender's data is
    /// recorded in the adjacency map for the record's lifetime, the
    /// frame is re-sent to every outbound peer except its source, and
    /// when the sender advertises spare capacity, is not already an
    /// outbound peer, and the roll comes up zero, an opportunistic
    /// outbound connection to it is opened.
    pub fn apply_with_roll(
        &self,
        peers: &PeerMap,
        adjacency_list: &mut TtlMap<PeerData>,
        now: u64,
        roll: u64,
    ) -> (r: Vec<Effect>)
        requires
            now + ADJACENCY_TTL_MS <= u64::MAX,
        ensures
            effects_view(r) == apply_spec(self@, peers@, roll),
            final(adjacency_list).spec_entry(self.source@) == Some(
                (
                    PeerDataV {
                        city: self.city@,
                        lat_bits: self.lat,
                        lng_bits: self.lng,
                        peers: crate::cmd::peers_view(self.peers),
                    },
                    (now + ADJACENCY_TTL_MS) as u64,
                ),
            ),
            forall|k: Seq<char>|
                k != self.source@ ==> final(adjacency_list).spec_entry(k) == old(
                    adjacency_list,
                ).spec_entry(k),
    {
        let data = PeerData::new(self.city.as_str(), self.lat, self.lng, clone_peer_list(&self.peers));
        adjacency_list.set(self.source.clone(), data, now + ADJACENCY_TTL_MS);
        let frame = Announce::new(
            self.source.clone(),
            self.sequence_number,
            self.ip_address.clone(),
            self.port,
            self.available_incoming,
            self.city.clone(),
            self.lat,
            self.lng,
            clone_peer_list(&self.peers),
        ).into_frame();
        let mut out = broadcast_effects_exec(peers, self.source.as_str(), &frame);
        let ghost base = effects_view(out);
        if self.available_incoming >= 1 && !peers.contains_peer(self.source.as_str()) && roll
            == 0 {
            let entry = Effect::Connect {
                peer: self.source.clone(),
                ip_address: self.ip_address.clone(),
                port: self.port,
            };
            out.push(entry);
            proof {
                assert(effects_view(out) =~= base.push(
                    EffectV::Connect {
                        peer: self.source@,
                        ip_address: self.ip_address@,
                        port: self.port,
                    },
                ));
                assert(effects_view(out) =~= apply_spec(self@, peers@, roll));
            }
        } else {
            proof {
                assert(effects_view(out) =~= base + Seq::<EffectV>::empty());
                assert(effects_view(out) =~= apply_spec(self@, peers@, roll));
            }
        }
        out
    }

    /// An announce with the roll drawn here: everything the contract
    /// of the rolled form says holds for some roll below the
    /// advertised capacity.
    pub fn apply(&self, peers: &PeerMap, adjacency_list: &mut TtlMap<PeerData>, now: u64) -> (r:
        Vec<Effect>)
        requires
            now + ADJACENCY_TTL_MS <= u64::MAX,
        ensures
            exists|roll: u64|
                effects_view(r) == apply_spec(self@, peers@, roll) && (self.available_incoming >= 1
                    ==> roll < self.available_incoming),
            final(adjacency_list).spec_entry(self.source@) == Some(
                (
                    PeerDataV {
                        city: self.city@,
                        lat_bits: self.lat,
                        lng_bits: self.lng,
                        peers: crate::cmd::peers_view(self.peers),
                    },
                    (now + ADJACENCY_TTL_MS) as u64,
                ),
            ),
            forall|k: Seq<char>|
                k != self.source@ ==> final(adjacency_list).spec_entry(k) == old(
                    adjacency_list,
                ).spec_entry(k),
    {
        let roll = if self.available_incoming >= 1 {
            draw(self.available_incoming)
        } else {
            0
        };
        let r = self.apply_with_roll(peers, adjacency_list, now, roll);
        proof {
            assert(effects_view(r) == apply_spec(self@, peers@, roll) && (self.available_incoming
                >= 1 ==> roll < self.available_incoming));
        }
        r
    }
}

/// A copy of a peer latency list, element for element.
fn clone_peer_list(v: &Vec<(String, u32)>) -> (r: Vec<(String, u32)>)
    ensures
        crate::cmd::peers_view(r) == crate::cmd::peers_view(*v),
{
    let mut out: Vec<(String, u32)> = Vec::new();
    let mut i: usize = 0;
    while i < v.len()
        invariant
            i <= v@.len(),
            crate::cmd::peers_view(out) == crate::cmd::peers_view(*v).subrange(0, i as int),
            crate::cmd::peers_view(*v).len() == v@.len(),
            forall|j: int|
                0 <= j < v@.len() ==> crate::cmd::peers_view(*v)[j] == ((#[trigger] v@[j]).0@,
                v@[j].1),
        decreases v@.len() - i,
    {
        let ghost pre = crate::cmd::peers_view(out);
        let entry = (v[i].0.clone(), v[i].1);
        out.push(entry);
        proof {
            assert(crate::cmd::peers_view(out) =~= pre.push(crate::cmd::peers_view(*v)[i as int]));
            assert(crate::cmd::peers_view(*v).subrange(0, i + 1) =~= crate::cmd::peers_view(
                *v,
            ).subrange(0, i as int).push(crate::cmd::peers_view(*v)[i as int]));
        }
        i = i + 1;
    }
    proof {
        assert(crate::cmd::peers_view(*v).subrange(0, crate::cmd::peers_view(*v).len() as int)
            =~= crate::cmd::peers_view(*v));
    }
    out
}

impl crate::cmd::Bing2BingCommand {
    /// True when this command's `(source, sequence_number)` pair is
    /// remembered as already applied. Pings and unknown commands are
    /// never deduplicated.
    pub fn check_duplicate(&self, processed_commands: &ProcessedCommands, now: u64) -> (r: bool)
        ensures
            r == (uses_dedup(self@) && processed_commands.spec_has(
                cmd_source(self@),
                cmd_sequence_number(self@),
                now,
            )),
    {
        match self {
            crate::cmd::Bing2BingCommand::Broadcast(c) => processed_commands.contains(
                c.source.as_str(),
                c.sequence_number,
                now,
            ),
            crate::cmd::Bing2BingCommand::Register(c) => processed_commands.contains(
                c.peer_name.as_str(),
                c.sequence_number,
                now,
            ),
            crate::cmd::Bing2BingCommand::Say(c) => processed_commands.contains(
                c.source.as_str(),
                c.sequence_number,
                now,
            ),
            crate::cmd::Bing2BingCommand::Deliver(c) => processed_commands.contains(
                c.source.as_str(),
                c.sequence_number,
                now,
            ),
            crate::cmd::Bing2BingCommand::Announce(c) => processed_commands.contains(
                c.source.as_str(),
                c.sequence_number,
                now,
            ),
            crate::cmd::Bing2BingCommand::Whisper(c) => processed_commands.contains(
                c.source.as_str(),
                c.sequence_number,
                now,
            ),
            crate::cmd::Bing2BingCommand::Extension(c) => processed_commands.contains(
                c.source.as_str(),
                c.sequence_number,
                now,
            ),
            crate::cmd::Bing2BingCommand::Ping(_) => false,
            crate::cmd::Bing2BingCommand::Unknown => false,
        }
    }

    /// Remembers this command's pair as applied for the dedup window.
    /// Pings and unknown commands leave no mark.
    pub fn set_processed(&self, processed_commands: &mut ProcessedCommands, now: u64)
        requires
            now + DEDUP_WINDOW_MS <= u64::MAX,
        ensures
            uses_dedup(self@) ==> forall|s: Seq<char>, q: u64, n: u64|
                final(processed_commands).spec_has(s, q, n) == (old(processed_commands).spec_has(
                    s,
                    q,
                    n,
                ) || (s == cmd_source(self@) && q == cmd_sequence_number(self@) && n < now
                    + DEDUP_WINDOW_MS)),
            !uses_dedup(self@) ==> *final(processed_commands) == *old(processed_commands),
    {
        match self {
            crate::cmd::Bing2BingCommand::Broadcast(c) => processed_commands.mark(
                c.source.as_str(),
                c.sequence_number,
                now,
            ),
            crate::cmd::Bing2BingCommand::Register(c) => processed_commands.mark(
                c.peer_name.as_str(),
                c.sequence_number,
                now,
            ),
            crate::cmd::Bing2BingCommand::Say(c) => processed_commands.mark(
                c.source.as_str(),
                c.sequence_number,
                now,
            ),
            crate::cmd::Bing2BingCommand::Deliver(c) => processed_commands.mark(
                c.source.as_str(),
                c.sequence_number,
                now,
            ),
            crate::cmd::Bing2BingCommand::Announce(c) => processed_commands.mark(
                c.source.as_str(),
                c.sequence_number,
                now,
            ),
            crate::cmd::Bing2BingCommand::Whisper(c) => processed_commands.mark(
                c.source.as_str(),
                c.sequence_number,
                now,
            ),
            crate::cmd::Bing2BingCommand::Extension(c) => processed_commands.mark(
                c.source.as_str(),
                c.sequence_number,
                now,
            ),
            crate::cmd::Bing2BingCommand::Ping(_) => (),
            crate::cmd::Bing2BingCommand::Unknown => (),
        }
    }
}

/// Runs one command through the dedup gate and, when it passes,
/// applies it under the given `roll`: a duplicate within the window
/// changes nothing and produces no effects; a fresh command is first
/// marked as processed and then applied.
pub fn process_command_with_roll(
    cmd: &crate::cmd::Bing2BingCommand,
    peers: &PeerMap,
    adjacency_list: &mut TtlMap<PeerData>,
    processed_commands: &mut ProcessedCommands,
    now: u64,
    roll: u64,
) -> (r: Vec<Effect>)
    requires
        now + DEDUP_WINDOW_MS <= u64::MAX,
    ensures
        uses_dedup(cmd@) && old(processed_commands).spec_has(
            cmd_source(cmd@),
            cmd_sequence_number(cmd@),
            now,
        ) ==> effects_view(r) =~= Seq::<EffectV>::empty() && *final(adjacency_list) == *old(
            adjacency_list,
        ) && *final(processed_commands) == *old(processed_commands),
        !(uses_dedup(cmd@) && old(processed_commands).spec_has(
            cmd_source(cmd@),
            cmd_sequence_number(cmd@),
            now,
        )) ==> {
            &&& effects_view(r) == apply_spec(cmd@, peers@, roll)
            &&& (uses_dedup(cmd@) ==> forall|s: Seq<char>, q: u64, n: u64|
                final(processed_commands).spec_has(s, q, n) == (old(
                    processed_commands,
                ).spec_has(s, q, n) || (s == cmd_source(cmd@) && q == cmd_sequence_number(cmd@)
                    && n < now + DEDUP_WINDOW_MS)))
            &&& (!uses_dedup(cmd@) ==> *final(processed_commands) == *old(processed_commands))
            &&& (cmd@ matches CommandV::Announce { source, city, lat_bits, lng_bits, peers: ps, .. }
                ==> final(adjacency_list).spec_entry(source) == Some(
                (
                    PeerDataV { city, lat_bits, lng_bits, peers: ps },
                    (now + ADJACENCY_TTL_MS) as u64,
                ),
            ) && forall|k: Seq<char>|
                k != source ==> final(adjacency_list).spec_entry(k) == old(
                    adjacency_list,
                ).spec_entry(k))
            &&& (!(cmd@ is Announce) ==> *final(adjacency_list) == *old(adjacency_list))
        },
{
    if cmd.check_duplicate(processed_commands, now) {
        let out: Vec<Effect> = Vec::new();
        proof {
            assert(effects_view(out) =~= Seq::<EffectV>::empty());
        }
        return out;
    }
    cmd.set_processed(processed_commands, now);
    match cmd {
        crate::cmd::Bing2BingCommand::Ping(c) => {
            let r = c.apply();
            proof {
                assert(effects_view(r) =~= apply_spec(cmd@, peers@, roll));
            }
            r
        },
        crate::cmd::Bing2BingCommand::Say(c) => c.apply(peers),
        crate::cmd::Bing2BingCommand::Broadcast(c) => c.apply(peers),
        crate::cmd::Bing2BingCommand::Deliver(c) => c.apply(peers),
        crate::cmd::Bing2BingCommand::Extension(c) => c.apply(peers),
        crate::cmd::Bing2BingCommand::Whisper(c) => c.apply(peers),
        crate::cmd::Bing2BingCommand::Announce(c) => c.apply_with_roll(
            peers,
            adjacency_list,
            now,
            roll,
        ),
        crate::cmd::Bing2BingCommand::Register(_) => {
            let mut out: Vec<Effect> = Vec::new();
            out.push(Effect::RejectRegister);
            proof {
                assert(effects_view(out) =~= apply_spec(cmd@, peers@, roll));
            }
            out
        },
        crate::cmd::Bing2BingCommand::Unknown => {
            let out: Vec<Effect> = Vec::new();
            proof {
                assert(effects_view(out) =~= apply_spec(cmd@, peers@, roll));
            }
            out
        },
    }
}

/// Runs one command through the dedup gate and applies it, drawing the
/// announce roll here: every outcome is one the rolled form allows for
/// some roll below the advertised capacity.
pub fn process_command(
    cmd: &crate::cmd::Bing2BingCommand,
    peers: &PeerMap,
    adjacency_list: &mut TtlMap<PeerData>,
    processed_commands: &mut ProcessedCommands,
    now: u64,
) -> (r: Vec<Effect>)
    requires
        now + DEDUP_WINDOW_MS <= u64::MAX,
    ensures
        uses_dedup(cmd@) && old(processed_commands).spec_has(
            cmd_source(cmd@),
            cmd_sequence_number(cmd@),
            now,
        ) ==> effects_view(r) =~= Seq::<EffectV>::empty() && *final(adjacency_list) == *old(
            adjacency_list,
        ) && *final(processed_commands) == *old(processed_commands),
        !(uses_dedup(cmd@) && old(processed_commands).spec_has(
            cmd_source(cmd@),
            cmd_sequence_number(cmd@),
            now,
        )) ==> exists|roll: u64| effects_view(r) == apply_spec(cmd@, peers@, roll),
{
    let roll = match cmd {
        crate::cmd::Bing2BingCommand::Announce(a) => if a.available_incoming >= 1 {
            draw(a.available_incoming)
        } else {
            0
        },
        _ => 0,
    };
    let r = process_command_with_roll(cmd, peers, adjacency_list, processed_commands, now, roll);
    proof {
        if !(uses_dedup(cmd@) && old(processed_commands).spec_has(
            cmd_source(cmd@),
            cmd_sequence_number(cmd@),
            now,
        )) {
            assert(effects_view(r) == apply_spec(cmd@, peers@, roll));
        }
    }
    r
}

/// The inbound capacity a peer advertises: how far the current count
/// of open inbound connections stands below the configured maximum,
/// and zero once the maximum is reached.
pub fn available_incoming(max_incoming: u64, current_inbound: u64) -> (r: u64)
    ensures
        r == (if current_inbound < max_incoming {
            (max_incoming - current_inbound) as u64
        } else {
            0u64
        }),
{
    if current_inbound < max_incoming {
        max_incoming - current_inbound
    } else {
        0
    }
}

/// The announce a peer emits: its advertised capacity is exactly the
/// configured maximum less the inbound connections open at emission,
/// floored at zero.
pub fn make_announce(
    name: String,
    sequence_number: u64,
    ip_address: String,
    port: u64,
    max_incoming: u64,
    current_inbound: u64,
    city: String,
    lat: u64,
    lng: u64,
    peers: Vec<(String, u32)>,
) -> (r: Announce)
    ensures
        r@ == (CommandV::Announce {
            source: name@,
            sequence_number,
            ip_address: ip_address@,
            port,
            available_incoming: (if current_inbound < max_incoming {
                (max_incoming - current_inbound) as u64
            } else {
                0u64
            }),
            city: city@,
            lat_bits: lat,
            lng_bits: lng,
            peers: crate::cmd::peers_view(peers),
        }),
{
    let available = available_incoming(max_incoming, current_inbound);
    Announce::new(name, sequence_number, ip_address, port, available, city, lat, lng, peers)
}

/// Every broadcast-propagated command — a say, broadcast, deliver,
/// extension or announce — is, upon apply, forwarded to every current
/// outbound peer except the one its envelope names as source.
pub proof fn lemma_propagation_reaches_all_peers(
    c: CommandV,
    peers: Seq<(Seq<char>, u32)>,
    roll: u64,
)
    requires
        c is Say || c is Broadcast || c is Deliver || c is Extension || c is Announce,
    ensures
        forall|i: int|
            0 <= i < peers.len() && (#[trigger] peers[i]).0 != cmd_source(c) ==> apply_spec(
                c,
                peers,
                roll,
            ).contains(EffectV::SendToPeer { peer: peers[i].0, frame: cmd_frame(c) }),
{
    let src = cmd_source(c);
    let pred = crate::peer_map::not_named(src);
    let filtered = peers.filter(pred);
    let sends = broadcast_spec(peers, src, cmd_frame(c));
    assert forall|i: int|
        0 <= i < peers.len() && (#[trigger] peers[i]).0 != src implies apply_spec(
        c,
        peers,
        roll,
    ).contains(EffectV::SendToPeer { peer: peers[i].0, frame: cmd_frame(c) }) by {
        peers.lemma_filter_contains(pred, i);
        let j = choose|j: int| 0 <= j < filtered.len() && filtered[j] == peers[i];
        assert(sends[j] == (peers[i].0, cmd_frame(c)));
        let e = EffectV::SendToPeer { peer: peers[i].0, frame: cmd_frame(c) };
        assert(send_effects(sends)[j] == e);
        match c {
            CommandV::Say { .. } => {
                let all = apply_spec(c, peers, roll);
                assert(all[j + 1] == e);
                assert(all.contains(e));
            },
            CommandV::Announce { .. } => {
                let all = apply_spec(c, peers, roll);
                assert(all[j] == e);
                assert(all.contains(e));
            },
            _ => {
                let all = apply_spec(c, peers, roll);
                assert(all[j] == e);
                assert(all.contains(e));
            },
        }
    }
}

/// A ping elicits exactly one effect: a response frame of kind number
/// carrying the ping's sequence number, on the same connection, and
/// nothing is forwarded anywhere.
pub proof fn lemma_ping_one_response(c: CommandV, peers: Seq<(Seq<char>, u32)>, roll: u64)
    requires
        c is Ping,
    ensures
        apply_spec(c, peers, roll) =~= seq![
            EffectV::Respond { frame: FrameV::Number(cmd_sequence_number(c)) },
        ],
        forall|e: EffectV| apply_spec(c, peers, roll).contains(e) ==> !(e is SendToPeer),
{
    assert forall|e: EffectV| apply_spec(c, peers, roll).contains(e) implies !(e is SendToPeer) by {
        let i = choose|i: int|
            0 <= i < apply_spec(c, peers, roll).len() && apply_spec(c, peers, roll)[i] == e;
        assert(apply_spec(c, peers, roll)[0] == e);
    }
}

/// An announce advertising no free inbound capacity never triggers an
/// opportunistic outbound connect.
pub proof fn lemma_no_connect_without_capacity(
    c: CommandV,
    peers: Seq<(Seq<char>, u32)>,
    roll: u64,
)
    requires
        c matches CommandV::Announce { available_incoming, .. } && available_incoming == 0,
    ensures
        forall|e: EffectV| apply_spec(c, peers, roll).contains(e) ==> !(e is Connect),
{
    lemma_announce_effects_connect(c, peers, roll);
}

/// An announce from a peer already present in the outbound registry
/// never triggers a second connect.
pub proof fn lemma_no_connect_when_already_outbound(
    c: CommandV,
    peers: Seq<(Seq<char>, u32)>,
    roll: u64,
)
    requires
        c is Announce,
        contains_name(peers, cmd_source(c)),
    ensures
        forall|e: EffectV| apply_spec(c, peers, roll).contains(e) ==> !(e is Connect),
{
    lemma_announce_effects_connect(c, peers, roll);
}

/// The connect effects of an announce: there is one exactly when the
/// sender advertises capacity, is not yet an outbound peer, and the
/// roll came up zero.
pub proof fn lemma_announce_effects_connect(c: CommandV, peers: Seq<(Seq<char>, u32)>, roll: u64)
    requires
        c is Announce,
    ensures
        (c matches CommandV::Announce { source, available_incoming, .. } && (available_incoming
            >= 1 && !contains_name(peers, source) && roll == 0)) <==> exists|e: EffectV|
            #[trigger] apply_spec(c, peers, roll).contains(e) && e is Connect,
{
    let all = apply_spec(c, peers, roll);
    let src = cmd_source(c);
    let sends = send_effects(broadcast_spec(peers, src, cmd_frame(c)));
    match c {
        CommandV::Announce { source, available_incoming, .. } => {
            if available_incoming >= 1 && !contains_name(peers, source) && roll == 0 {
                let e = all[all.len() - 1];
                assert(e is Connect);
                assert(all.contains(e));
            } else {
                assert forall|e: EffectV| #[trigger] all.contains(e) implies !(e is Connect) by {
                    let i = choose|i: int| 0 <= i < all.len() && all[i] == e;
                    assert(all =~= sends);
                    assert(sends[i] == e);
                }
            }
        },
        _ => {},
    }
}

/// A whisper with an empty path performs no send and has no effect at
/// all.
pub proof fn lemma_whisper_empty_path(c: CommandV, peers: Seq<(Seq<char>, u32)>, roll: u64)
    requires
        c matches CommandV::Whisper { path, .. } && path.len() == 0,
    ensures
        apply_spec(c, peers, roll) =~= Seq::<EffectV>::empty(),
{
}

/// The broadcast that carries a locally spoken chat line out to every
/// registered peer: what the engine does for a say that originates
/// here rather than on the wire.
pub fn say(peer_map: &PeerMap, from: String, message: String, sequence_number: u64) -> (r: Vec<
    Effect,
>)
    ensures
        effects_view(r) == send_effects(
            broadcast_spec(
                peer_map@,
                from@,
                cmd_frame(
                    CommandV::Say { source: from@, sequence_number, message: message@ },
                ),
            ),
        ),
{
    let frame = Say::new(from.clone(), sequence_number, message.as_str()).into_frame();
    broadcast_effects_exec(peer_map, from.as_str(), &frame)
}

} // verus!
