//! What an announce teaches about one peer: its location and its
//! outbound neighbours.
use vstd::prelude::*;

use crate::cmd::peers_view;

verus! {

/// The mathematical value of a peer's announced data.
pub struct PeerDataV {
    pub city: Seq<char>,
    pub lat_bits: u64,
    pub lng_bits: u64,
    pub peers: Seq<(Seq<char>, u32)>,
}

/// One peer's announced data: its city, location (as 64-bit float bit
/// patterns) and outbound neighbours with their last known latencies.
#[derive(Debug, Clone)]
pub struct PeerData {
    pub city: String,
    pub lat: u64,
    pub lng: u64,
    pub peers: Vec<(String, u32)>,
}

impl View for PeerData {
    type V = PeerDataV;

    open spec fn view(&self) -> PeerDataV {
        PeerDataV {
            city: self.city@,
            lat_bits: self.lat,
            lng_bits: self.lng,
            peers: peers_view(self.peers),
        }
    }
}

impl PeerData {
    /// Announced data with the given city, location bits and
    /// neighbour list.
    pub fn new(city: &str, lat: u64, lng: u64, peers: Vec<(String, u32)>) -> (r: PeerData)
        ensures
            r@ == (PeerDataV { city: city@, lat_bits: lat, lng_bits: lng, peers: peers_view(
                peers,
            ) }),
    {
        PeerData { city: city.to_owned(), lat, lng, peers }
    }

    /// The announced neighbour list.
    pub fn get_peers(&self) -> (r: &Vec<(String, u32)>)
        ensures
            peers_view(*r) == self@.peers,
    {
        &self.peers
    }
}

} // verus!
