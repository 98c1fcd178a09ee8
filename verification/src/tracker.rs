//! The tracker: the directory that hands newcomers a bounded starter
//! list of peer addresses. It neither forwards nor dedups.
use vstd::prelude::*;

use crate::cmd::string_of_item;
use crate::frame::frames_view;
use crate::frame::str_eq;
use crate::frame::Bing2BingFrame;
use crate::frame::FrameV;
use crate::parse::Parse;
use crate::parse::ParseError;

verus! {

/// The name, ip and port of one registered peer, as character
/// sequences.
pub open spec fn triple_view(t: (String, String, String)) -> (Seq<char>, Seq<char>, Seq<char>) {
    (t.0@, t.1@, t.2@)
}

/// The triples a registry or a response carries, in order.
pub open spec fn triples_view(v: Vec<(String, String, String)>) -> Seq<
    (Seq<char>, Seq<char>, Seq<char>),
> {
    Seq::new(v@.len(), |i: int| triple_view(v@[i]))
}

/// The registry entry frame for one peer: `[name, ip, port]`.
pub open spec fn triple_frame(t: (Seq<char>, Seq<char>, Seq<char>)) -> FrameV {
    FrameV::Array(seq![FrameV::Text(t.0), FrameV::Text(t.1), FrameV::Text(t.2)])
}

/// The tracker's registry: who has registered, at what address.
#[derive(Debug, Clone)]
pub struct TrackerRegistry {
    entries: Vec<(String, String, String)>,
}

impl View for TrackerRegistry {
    type V = Seq<(Seq<char>, Seq<char>, Seq<char>)>;

    closed spec fn view(&self) -> Seq<(Seq<char>, Seq<char>, Seq<char>)> {
        triples_view(self.entries)
    }
}

impl TrackerRegistry {
    /// An empty registry.
    pub fn new() -> (r: TrackerRegistry)
        ensures
            r@ =~= Seq::<(Seq<char>, Seq<char>, Seq<char>)>::empty(),
    {
        TrackerRegistry { entries: Vec::new() }
    }

    /// Records that `name` listens at `ip:port`: a fresh name is
    /// appended; a returning name has its address overwritten in
    /// place.
    pub fn register(&mut self, name: String, ip_address: String, port: String)
        ensures
            exists|i: int|
                0 <= i < final(self)@.len() && final(self)@[i] == (name@, ip_address@, port@),
            final(self)@.len() <= old(self)@.len() + 1,
    {
        let mut i: usize = 0;
        while i < self.entries.len()
            invariant
                i <= self.entries@.len(),
                *self == *old(self),
            decreases self.entries@.len() - i,
        {
            if str_eq(self.entries[i].0.as_str(), name.as_str()) {
                self.entries[i] = (name, ip_address, port);
                proof {
                    assert(self@[i as int] == (self.entries@[i as int].0@,
                    self.entries@[i as int].1@, self.entries@[i as int].2@));
                }
                return ;
            }
            i = i + 1;
        }
        let ghost n = self.entries@.len();
        self.entries.push((name, ip_address, port));
        proof {
            assert(self@[n as int] == (self.entries@[n as int].0@, self.entries@[n as int].1@,
            self.entries@[n as int].2@));
        }
    }

    /// The response to a registration: an array of up to `limit`
    /// entries from the registry, each as `[name, ip, port]`, in
    /// registry order from the front.
    pub fn response_frame(&self, limit: usize) -> (r: Bing2BingFrame)
        ensures
            ({
                let n = if limit as int <= self@.len() {
                    limit as int
                } else {
                    self@.len() as int
                };
                r@ == FrameV::Array(
                    Seq::new(n as nat, |i: int| triple_frame(self@[i])),
                )
            }),
    {
        let n = if limit <= self.entries.len() {
            limit
        } else {
            self.entries.len()
        };
        let mut elems: Vec<Bing2BingFrame> = Vec::new();
        let mut i: usize = 0;
        while i < n
            invariant
                i <= n <= self.entries@.len(),
                self@.len() == self.entries@.len(),
                forall|j: int|
                    0 <= j < self.entries@.len() ==> self@[j] == ((#[trigger] self.entries@[j]).0@,
                    self.entries@[j].1@, self.entries@[j].2@),
                elems@.len() == i as int,
                forall|j: int|
                    0 <= j < i as int ==> crate::frame::frame_view(#[trigger] elems@[j])
                        == triple_frame(self@[j]),
            decreases n - i,
        {
            let mut triple: Vec<Bing2BingFrame> = Vec::new();
            triple.push(Bing2BingFrame::Text(self.entries[i].0.clone()));
            triple.push(Bing2BingFrame::Text(self.entries[i].1.clone()));
            triple.push(Bing2BingFrame::Text(self.entries[i].2.clone()));
            let entry = Bing2BingFrame::Array(triple);
            proof {
                crate::frame::lemma_frames_view(entry->Array_0);
                assert(frames_view(entry->Array_0) =~= triple_frame(self@[i as int])->Array_0);
            }
            elems.push(entry);
            i = i + 1;
        }
        let r = Bing2BingFrame::Array(elems);
        proof {
            crate::frame::lemma_frames_view(r->Array_0);
            assert(frames_view(r->Array_0) =~= Seq::new(
                n as nat,
                |i: int| triple_frame(self@[i]),
            ));
        }
        r
    }
}

/// The peer triples a tracker response means: each element must be an
/// array of exactly three strings.
pub open spec fn register_response_list(items: Seq<FrameV>, i: int) -> Option<
    Seq<(Seq<char>, Seq<char>, Seq<char>)>,
>
    decreases items.len() - i,
{
    if i < 0 || i >= items.len() {
        Some(Seq::empty())
    } else {
        match items[i] {
            FrameV::Array(sub) => if sub.len() == 3 && string_of_item(sub[0]) is Some
                && string_of_item(sub[1]) is Some && string_of_item(sub[2]) is Some {
                match register_response_list(items, i + 1) {
                    Some(rest) => Some(
                        seq![
                            (
                                string_of_item(sub[0])->Some_0,
                                string_of_item(sub[1])->Some_0,
                                string_of_item(sub[2])->Some_0,
                            ),
                        ] + rest,
                    ),
                    None => None,
                }
            } else {
                None
            },
            _ => None,
        }
    }
}

/// Reads a tracker response: an array of `[name, ip, port]` triples.
/// Running out of elements is the normal end of the list; anything
/// but a three-string array among them is an error.
pub fn parse_register_response(response: Bing2BingFrame) -> (r: Result<
    Vec<(String, String, String)>,
    ParseError,
>)
    ensures
        match r {
            Ok(triples) => response@ matches FrameV::Array(items) && register_response_list(
                items,
                0,
            ) == Some(triples_view(triples)),
            Err(_) => !(response@ is Array) || register_response_list(
                response@->Array_0,
                0,
            ) is None,
        },
{
    let ghost rv = response@;
    let mut parse = match Parse::new(response) {
        Ok(p) => p,
        Err(e) => {
            return Err(e);
        },
    };
    let ghost items = parse.items();
    let mut ret: Vec<(String, String, String)> = Vec::new();
    proof {
        assert(crate::cmd::opt_list_prepend(triples_view(ret), register_response_list(items, 0))
            == register_response_list(items, 0)) by {
            assert(triples_view(ret) =~= Seq::<(Seq<char>, Seq<char>, Seq<char>)>::empty());
            match register_response_list(items, 0) {
                Some(s) => {
                    assert(Seq::<(Seq<char>, Seq<char>, Seq<char>)>::empty() + s =~= s);
                },
                None => {},
            }
        }
    }
    loop
        invariant
            parse.wf(),
            parse.items() == items,
            0 <= parse.at() <= items.len(),
            rv == response@,
            rv matches FrameV::Array(itms) && itms == items,
            register_response_list(items, 0) == crate::cmd::opt_list_prepend(
                triples_view(ret),
                register_response_list(items, parse.at()),
            ),
        decreases items.len() - parse.at(),
    {
        let ghost at = parse.at();
        let frame = match parse.next() {
            Ok(f) => f,
            Err(_) => {
                // End of the list: the normal termination signal.
                proof {
                    match register_response_list(items, 0) {
                        Some(s) => {
                            assert(triples_view(ret) + Seq::<
                                (Seq<char>, Seq<char>, Seq<char>),
                            >::empty() =~= triples_view(ret));
                        },
                        None => {},
                    }
                }
                return Ok(ret);
            },
        };
        let mut peer_info_parse = match Parse::new(frame) {
            Ok(p) => p,
            Err(e) => {
                return Err(e);
            },
        };
        let ghost sub = peer_info_parse.items();
        let peer_name = match peer_info_parse.next_string() {
            Ok(s) => s,
            Err(e) => {
                return Err(e);
            },
        };
        let ip_address = match peer_info_parse.next_string() {
            Ok(s) => s,
            Err(e) => {
                return Err(e);
            },
        };
        let port = match peer_info_parse.next_string() {
            Ok(s) => s,
            Err(e) => {
                return Err(e);
            },
        };
        if let Err(e) = peer_info_parse.finish() {
            return Err(e);
        }
        proof {
            crate::cmd::lemma_string_item(sub[0], peer_name@);
            crate::cmd::lemma_string_item(sub[1], ip_address@);
            crate::cmd::lemma_string_item(sub[2], port@);
        }
        let ghost pre = triples_view(ret);
        let ghost triple = (peer_name@, ip_address@, port@);
        let entry = (peer_name, ip_address, port);
        ret.push(entry);
        proof {
            assert(triples_view(ret) =~= pre.push(triple));
            assert(register_response_list(items, at) == crate::cmd::opt_list_prepend(
                seq![triple],
                register_response_list(items, at + 1),
            ));
            crate::cmd::lemma_opt_list_prepend_assoc(
                pre,
                seq![triple],
                register_response_list(items, at + 1),
            );
            assert(pre + seq![triple] =~= triples_view(ret));
        }
    }
}

/// The tracker entries a joining peer should connect to: everyone but
/// itself, in response order.
pub fn bootstrap_targets(received: Vec<(String, String, String)>, self_name: &str) -> (r: Vec<
    (String, String, String),
>)
    ensures
        triples_view(r) == triples_view(received).filter(not_self(self_name@)),
{
    let ghost rv = triples_view(received);
    let mut out: Vec<(String, String, String)> = Vec::new();
    let mut i: usize = 0;
    proof {
        reveal(Seq::filter);
        assert(rv.subrange(0, 0) =~= Seq::<(Seq<char>, Seq<char>, Seq<char>)>::empty());
        assert(triples_view(out) =~= rv.subrange(0, 0).filter(not_self(self_name@)));
    }
    while i < received.len()
        invariant
            i <= received@.len(),
            rv == triples_view(received),
            rv.len() == received@.len(),
            forall|j: int|
                0 <= j < received@.len() ==> rv[j] == triple_view(#[trigger] received@[j]),
            triples_view(out) == rv.subrange(0, i as int).filter(not_self(self_name@)),
        decreases received@.len() - i,
    {
        let ghost pre = triples_view(out);
        let keep = !str_eq(received[i].0.as_str(), self_name);
        if keep {
            let entry = (
                received[i].0.clone(),
                received[i].1.clone(),
                received[i].2.clone(),
            );
            out.push(entry);
        }
        proof {
            reveal(Seq::filter);
            let sub1 = rv.subrange(0, i + 1);
            assert(sub1.drop_last() =~= rv.subrange(0, i as int));
            assert(sub1.last() == rv[i as int]);
            if keep {
                assert(triples_view(out) =~= pre.push(rv[i as int]));
            } else {
                assert(triples_view(out) =~= pre);
            }
        }
        i = i + 1;
    }
    proof {
        assert(rv.subrange(0, rv.len() as int) =~= rv);
    }
    out
}

/// The predicate selecting entries not named `self_name`.
pub open spec fn not_self(self_name: Seq<char>) -> spec_fn(
    (Seq<char>, Seq<char>, Seq<char>),
) -> bool {
    |t: (Seq<char>, Seq<char>, Seq<char>)| t.0 != self_name
}

} // verus!
