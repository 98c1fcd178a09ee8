//! A peer-to-peer chat overlay: framed wire protocol, command set,
//! per-peer message engine with dedup, gossip announcements, and a
//! bootstrap tracker directory.
mod announce;
mod broadcast;
mod client;
mod cmd;
mod codec;
mod connection;
mod counters;
mod deliver;
mod extension;
mod frame;
mod parse;
mod peer;
mod peer_map;
mod ping;
mod processed;
mod register;
mod say;
mod server;
mod tracker;
mod ttl_map;
mod whisper;

pub use announce::Announce;
pub use broadcast::Broadcast;
pub use client::ClientServerMessage;
pub use client::UiClientMessage;
pub use cmd::cmd_frame;
pub use cmd::lemma_cmd_round_trip;
pub use cmd::parse_cmd;
pub use cmd::path_view;
pub use cmd::peers_view;
pub use cmd::Bing2BingCommand;
pub use cmd::CommandV;
pub use codec::decode_frame;
pub use codec::frame_bytes;
pub use codec::lemma_codec_round_trip;
pub use codec::spec_decode;
pub use connection::encode_wire;
pub use connection::lemma_command_wire_round_trip;
pub use connection::lemma_wire_round_trip;
pub use connection::wire_bytes;
pub use connection::Connection;
pub use connection::ReadOutcome;
pub use counters::ConnectionCounter;
pub use counters::SequenceNumberGenerator;
pub use deliver::Deliver;
pub use extension::Extension;
pub use frame::frame_view;
pub use frame::frames_view;
pub use frame::Bing2BingFrame;
pub use frame::FrameV;
pub use parse::Parse;
pub use parse::ParseError;
pub use peer::PeerData;
pub use peer::PeerDataV;
pub use peer_map::broadcast_spec;
pub use peer_map::contains_name;
pub use peer_map::PeerMap;
pub use ping::Ping;
pub use processed::ProcessedCommands;
pub use processed::DEDUP_WINDOW_MS;
pub use register::Register;
pub use say::Say;
pub use server::apply_spec;
pub use server::available_incoming;
pub use server::cmd_sequence_number;
pub use server::cmd_source;
pub use server::effects_view;
pub use server::lemma_announce_effects_connect;
pub use server::lemma_no_connect_when_already_outbound;
pub use server::lemma_no_connect_without_capacity;
pub use server::lemma_ping_one_response;
pub use server::lemma_propagation_reaches_all_peers;
pub use server::lemma_whisper_empty_path;
pub use server::make_announce;
pub use server::process_command;
pub use server::process_command_with_roll;
pub use server::say;
pub use server::uses_dedup;
pub use server::Effect;
pub use server::EffectV;
pub use server::ADJACENCY_TTL_MS;
pub use tracker::bootstrap_targets;
pub use tracker::parse_register_response;
pub use tracker::TrackerRegistry;
pub use ttl_map::TtlMap;
pub use whisper::Whisper;
