//! The peer map: the registry of outbound peers and the fan-out rules
//! over it. The map records which workers are alive and with what
//! last-known latency; the frames to enqueue are computed here and
//! handed back as explicit send lists.
use vstd::prelude::*;

use crate::cmd::peers_view;
use crate::frame::Bing2BingFrame;
use crate::frame::FrameV;

verus! {

/// True when `peers` holds an entry named `name`.
pub open spec fn contains_name(peers: Seq<(Seq<char>, u32)>, name: Seq<char>) -> bool {
    exists|i: int| 0 <= i < peers.len() && (#[trigger] peers[i]).0 == name
}

/// The predicate selecting entries not named `except`.
pub open spec fn not_named(except: Seq<char>) -> spec_fn((Seq<char>, u32)) -> bool {
    |p: (Seq<char>, u32)| p.0 != except
}

/// The map pairing an entry's name with a frame.
pub open spec fn to_send(f: FrameV) -> spec_fn((Seq<char>, u32)) -> (Seq<char>, FrameV) {
    |p: (Seq<char>, u32)| (p.0, f)
}

/// The sends of a broadcast: one per registered peer not named
/// `except`, in registry order, each carrying the frame.
pub open spec fn broadcast_spec(
    peers: Seq<(Seq<char>, u32)>,
    except: Seq<char>,
    f: FrameV,
) -> Seq<(Seq<char>, FrameV)> {
    peers.filter(not_named(except)).map_values(to_send(f))
}

/// The names and frames of a send list.
pub open spec fn sends_view(v: Vec<(String, Bing2BingFrame)>) -> Seq<(Seq<char>, FrameV)> {
    Seq::new(v@.len(), |i: int| (v@[i].0@, v@[i].1@))
}

/// The registry of outbound peers: name and last-known latency, one
/// entry per live worker.
#[derive(Debug, Clone)]
pub struct PeerMap {
    entries: Vec<(String, u32)>,
}

impl View for PeerMap {
    type V = Seq<(Seq<char>, u32)>;

    closed spec fn view(&self) -> Seq<(Seq<char>, u32)> {
        peers_view(self.entries)
    }
}

impl PeerMap {
    /// An empty registry.
    pub fn new() -> (r: PeerMap)
        ensures
            r@ =~= Seq::<(Seq<char>, u32)>::empty(),
    {
        PeerMap { entries: Vec::new() }
    }

    /// Registers an outbound peer with no latency measurement yet;
    /// a name already present keeps its entry.
    pub fn insert(&mut self, name: String)
        ensures
            contains_name(final(self)@, name@),
            contains_name(old(self)@, name@) ==> final(self)@ == old(self)@,
            !contains_name(old(self)@, name@) ==> final(self)@ == old(self)@.push((name@, 0u32)),
    {
        if self.contains_peer(name.as_str()) {
            return ;
        }
        let ghost before = self@;
        self.entries.push((name, 0));
        proof {
            assert(self@ =~= before.push((name@, 0u32)));
            assert(self@[before.len() as int].0 == name@);
        }
    }

    /// Drops every entry named `name`; the rest keep their order.
    pub fn remove(&mut self, name: &str)
        ensures
            final(self)@ == old(self)@.filter(not_named(name@)),
    {
        let ghost orig = self@;
        let ghost pred = not_named(name@);
        let mut kept: Vec<(String, u32)> = Vec::new();
        let mut i: usize = 0;
        proof {
            reveal(Seq::filter);
            assert(orig.subrange(0, 0) =~= Seq::<(Seq<char>, u32)>::empty());
            assert(peers_view(kept) =~= orig.subrange(0, 0).filter(pred));
        }
        while i < self.entries.len()
            invariant
                i <= self.entries@.len(),
                self@ == orig,
                orig == old(self)@,
                orig.len() == self.entries@.len(),
                forall|j: int|
                    0 <= j < self.entries@.len() ==> orig[j] == ((#[trigger] self.entries@[j]).0@,
                    self.entries@[j].1),
                peers_view(kept) == orig.subrange(0, i as int).filter(not_named(name@)),
            decreases self.entries@.len() - i,
        {
            let ghost pre = peers_view(kept);
            let keep = !crate::frame::str_eq(self.entries[i].0.as_str(), name);
            if keep {
                let entry = (self.entries[i].0.clone(), self.entries[i].1);
                kept.push(entry);
            }
            proof {
                reveal(Seq::filter);
                let pred = not_named(name@);
                let sub1 = orig.subrange(0, i + 1);
                assert(sub1.drop_last() =~= orig.subrange(0, i as int));
                assert(sub1.last() == orig[i as int]);
                if keep {
                    assert(peers_view(kept) =~= pre.push(orig[i as int]));
                } else {
                    assert(peers_view(kept) =~= pre);
                }
                assert(peers_view(kept) == sub1.filter(pred));
            }
            i = i + 1;
        }
        self.entries = kept;
        proof {
            assert(orig.subrange(0, orig.len() as int) =~= orig);
        }
    }

    /// True when an outbound worker for `name` is registered.
    pub fn contains_peer(&self, name: &str) -> (r: bool)
        ensures
            r == contains_name(self@, name@),
    {
        let mut i: usize = 0;
        while i < self.entries.len()
            invariant
                i <= self.entries@.len(),
                self@.len() == self.entries@.len(),
                forall|j: int|
                    0 <= j < self.entries@.len() ==> (#[trigger] self@[j]) == (
                    self.entries@[j].0@,
                    self.entries@[j].1,
                ),
                forall|j: int| 0 <= j < i as int ==> (#[trigger] self@[j]).0 != name@,
            decreases self.entries@.len() - i,
        {
            if crate::frame::str_eq(self.entries[i].0.as_str(), name) {
                proof {
                    assert(self@[i as int].0 == name@);
                }
                return true;
            }
            i = i + 1;
        }
        false
    }

    /// The registered peers with their last-known latencies.
    pub fn peer_names(&self) -> (r: Vec<(String, u32)>)
        ensures
            peers_view(r) == self@,
    {
        let mut out: Vec<(String, u32)> = Vec::new();
        let mut i: usize = 0;
        while i < self.entries.len()
            invariant
                i <= self.entries@.len(),
                self@.len() == self.entries@.len(),
                forall|j: int|
                    0 <= j < self.entries@.len() ==> (#[trigger] self@[j]) == (
                    self.entries@[j].0@,
                    self.entries@[j].1,
                ),
                peers_view(out) == self@.subrange(0, i as int),
            decreases self.entries@.len() - i,
        {
            let ghost pre = peers_view(out);
            let entry = (self.entries[i].0.clone(), self.entries[i].1);
            out.push(entry);
            proof {
                assert(peers_view(out) =~= pre.push(self@[i as int]));
                assert(self@.subrange(0, i + 1) =~= self@.subrange(0, i as int).push(
                    self@[i as int],
                ));
            }
            i = i + 1;
        }
        proof {
            assert(self@.subrange(0, self@.len() as int) =~= self@);
        }
        out
    }

    /// The sends that deliver `frame` to every registered peer except
    /// the one named `except_source`.
    pub fn broadcast(&self, except_source: &str, frame: &Bing2BingFrame) -> (r: Vec<
        (String, Bing2BingFrame),
    >)
        ensures
            sends_view(r) == broadcast_spec(self@, except_source@, frame@),
    {
        let ghost pred = not_named(except_source@);
        let ghost fv = frame@;
        let mut out: Vec<(String, Bing2BingFrame)> = Vec::new();
        let mut i: usize = 0;
        proof {
            reveal(Seq::filter);
            assert(self@.subrange(0, 0) =~= Seq::<(Seq<char>, u32)>::empty());
            assert(sends_view(out) =~= self@.subrange(0, 0).filter(pred).map_values(
                |p: (Seq<char>, u32)| (p.0, fv),
            ));
        }
        while i < self.entries.len()
            invariant
                i <= self.entries@.len(),
                self@.len() == self.entries@.len(),
                fv == frame@,
                forall|j: int|
                    0 <= j < self.entries@.len() ==> (#[trigger] self@[j]) == (
                    self.entries@[j].0@,
                    self.entries@[j].1,
                ),
                sends_view(out) == self@.subrange(0, i as int).filter(
                    not_named(except_source@),
                ).map_values(to_send(fv)),
            decreases self.entries@.len() - i,
        {
            let ghost pre = sends_view(out);
            let keep = !crate::frame::str_eq(self.entries[i].0.as_str(), except_source);
            if keep {
                let entry = (self.entries[i].0.clone(), frame.clone());
                out.push(entry);
            }
            proof {
                reveal(Seq::filter);
                let pred = not_named(except_source@);
                let sub1 = self@.subrange(0, i + 1);
                assert(sub1.drop_last() =~= self@.subrange(0, i as int));
                assert(sub1.last() == self@[i as int]);
                if keep {
                    assert(sends_view(out) =~= pre.push((self@[i as int].0, fv)));
                    assert(sub1.filter(pred) == self@.subrange(0, i as int).filter(pred).push(
                        self@[i as int],
                    ));
                    assert(sends_view(out) =~= sub1.filter(pred).map_values(to_send(fv)));
                } else {
                    assert(sends_view(out) =~= pre);
                    assert(sub1.filter(pred) == self@.subrange(0, i as int).filter(pred));
                }
            }
            i = i + 1;
        }
        proof {
            assert(self@.subrange(0, self@.len() as int) =~= self@);
        }
        out
    }

    /// The send that delivers `frame` to the peer named `target`, if
    /// one is registered; a missing target is a silent drop.
    pub fn send_to_peer(&self, except_source: &str, target: &str, frame: &Bing2BingFrame) -> (r:
        Vec<(String, Bing2BingFrame)>)
        ensures
            contains_name(self@, target@) ==> sends_view(r) =~= seq![(target@, frame@)],
            !contains_name(self@, target@) ==> sends_view(r) =~= Seq::<
                (Seq<char>, FrameV),
            >::empty(),
    {
        let mut out: Vec<(String, Bing2BingFrame)> = Vec::new();
        if self.contains_peer(target) {
            let entry = (target.to_owned(), frame.clone());
            out.push(entry);
        }
        out
    }
}

} // verus!
