//! Wire framing: each frame travels as a 32-bit big-endian length
//! prefix followed by that many payload bytes, the payload being the
//! frame's textual encoding. A `Connection` holds the two byte
//! buffers between the socket (outside this crate) and the codec.
use vstd::prelude::*;

use crate::codec::frame_bytes;
use crate::codec::spec_decode;
use crate::frame::Bing2BingFrame;
use crate::frame::FrameV;

verus! {

/// The big-endian four-byte rendering of a 32-bit length.
pub open spec fn spec_u32_be(n: u32) -> Seq<u8> {
    seq![
        ((n >> 24) & 0xff) as u8,
        ((n >> 16) & 0xff) as u8,
        ((n >> 8) & 0xff) as u8,
        (n & 0xff) as u8,
    ]
}

/// The 32-bit length read from four big-endian bytes.
pub open spec fn spec_u32_from_be(s: Seq<u8>) -> u32
    recommends
        s.len() == 4,
{
    ((s[0] as u32) << 24) | ((s[1] as u32) << 16) | ((s[2] as u32) << 8) | (s[3] as u32)
}

/// The two length renderings invert each other.
pub proof fn lemma_u32_be_round_trip(n: u32)
    ensures
        spec_u32_be(n).len() == 4,
        spec_u32_from_be(spec_u32_be(n)) == n,
{
    let s = spec_u32_be(n);
    assert(((((n >> 24) & 0xff) as u8 as u32) << 24) | ((((n >> 16) & 0xff) as u8 as u32) << 16)
        | ((((n >> 8) & 0xff) as u8 as u32) << 8) | ((n & 0xff) as u8 as u32) == n)
        by (bit_vector);
}

/// A frame on the wire: its length, big-endian, then its encoding.
pub open spec fn wire_bytes(v: FrameV) -> Seq<u8> {
    spec_u32_be(frame_bytes(v).len() as u32) + frame_bytes(v)
}

/// The payload length announced by a buffer's first four bytes.
pub open spec fn wire_len(buf: Seq<u8>) -> int {
    spec_u32_from_be(buf.take(4)) as int
}

/// The payload delimited by a buffer's length prefix.
pub open spec fn wire_payload(buf: Seq<u8>) -> Seq<u8> {
    buf.subrange(4, 4 + wire_len(buf))
}

/// What one attempt to take a frame off the buffer yields.
#[derive(Debug)]
pub enum ReadOutcome {
    /// Not enough bytes buffered for a whole frame yet.
    Pending,
    /// One whole frame, removed from the buffer.
    Frame(Bing2BingFrame),
    /// The delimited payload is not a frame; the connection should be
    /// torn down.
    Corrupt,
}

/// A well-formed wire rendering followed by anything parses back to
/// the frame it renders, and leaves exactly the rest.
pub proof fn lemma_wire_round_trip(v: FrameV, rest: Seq<u8>)
    requires
        frame_bytes(v).len() <= u32::MAX,
    ensures
        (wire_bytes(v) + rest).len() >= 4,
        wire_len(wire_bytes(v) + rest) == frame_bytes(v).len(),
        wire_payload(wire_bytes(v) + rest) == frame_bytes(v),
        spec_decode(wire_payload(wire_bytes(v) + rest), 0) == Some(
            (v, frame_bytes(v).len() as int),
        ),
        (wire_bytes(v) + rest).skip(4 + frame_bytes(v).len() as int) == rest,
{
    let fb = frame_bytes(v);
    let n = fb.len() as u32;
    let buf = wire_bytes(v) + rest;
    lemma_u32_be_round_trip(n);
    assert(buf.take(4) =~= spec_u32_be(n));
    assert(wire_len(buf) == fb.len());
    assert(wire_payload(buf) =~= fb);
    crate::codec::lemma_codec_round_trip(v);
    assert(buf.skip(4 + fb.len() as int) =~= rest);
}

/// A proper command put on the wire and read back is the same
/// command: the wire framing, the frame codec and the command grammar
/// compose into one lossless round trip.
pub proof fn lemma_command_wire_round_trip(c: crate::cmd::CommandV, rest: Seq<u8>)
    requires
        !(c is Unknown),
        frame_bytes(crate::cmd::cmd_frame(c)).len() <= u32::MAX,
    ensures
        ({
            let v = crate::cmd::cmd_frame(c);
            &&& spec_decode(wire_payload(wire_bytes(v) + rest), 0) == Some(
                (v, frame_bytes(v).len() as int),
            )
            &&& crate::cmd::parse_cmd(v) == Some(c)
        }),
{
    lemma_wire_round_trip(crate::cmd::cmd_frame(c), rest);
    crate::cmd::lemma_cmd_round_trip(c);
}

/// Builds the wire rendering of a frame: four length bytes, then the
/// encoding. Fails exactly when the encoding cannot be delimited by a
/// 32-bit length.
pub fn encode_wire(f: &Bing2BingFrame) -> (r: Option<Vec<u8>>)
    ensures
        match r {
            Some(bytes) => frame_bytes(f@).len() <= u32::MAX && bytes@ == wire_bytes(f@),
            None => frame_bytes(f@).len() > u32::MAX,
        },
{
    let payload = f.encode();
    if payload.len() > 0xffff_ffff_usize {
        return None;
    }
    let n = payload.len() as u32;
    let mut out: Vec<u8> = Vec::new();
    out.push(((n >> 24) & 0xff) as u8);
    out.push(((n >> 16) & 0xff) as u8);
    out.push(((n >> 8) & 0xff) as u8);
    out.push((n & 0xff) as u8);
    let mut i: usize = 0;
    while i < payload.len()
        invariant
            i <= payload@.len(),
            payload@ == frame_bytes(f@),
            out@ == spec_u32_be(frame_bytes(f@).len() as u32) + payload@.subrange(0, i as int),
        decreases payload@.len() - i,
    {
        out.push(payload[i]);
        proof {
            assert(payload@.subrange(0, i + 1) =~= payload@.subrange(0, i as int).push(
                payload@[i as int],
            ));
            assert(out@ =~= spec_u32_be(frame_bytes(f@).len() as u32) + payload@.subrange(
                0,
                i + 1,
            ));
        }
        i = i + 1;
    }
    proof {
        assert(payload@.subrange(0, payload@.len() as int) =~= payload@);
        assert(out@ =~= wire_bytes(f@));
    }
    Some(out)
}

/// The byte buffers of one TCP connection: bytes read off the socket
/// accumulate in `inbound` until whole frames can be taken; frames to
/// send accumulate in `outbound` until the socket drains them.
#[derive(Debug)]
pub struct Connection {
    /// Bytes received and not yet parsed.
    pub inbound: Vec<u8>,
    /// Bytes to be written to the peer.
    pub outbound: Vec<u8>,
}

impl Connection {
    /// A connection with nothing buffered.
    pub fn new() -> (r: Connection)
        ensures
            r.inbound@ == Seq::<u8>::empty(),
            r.outbound@ == Seq::<u8>::empty(),
    {
        Connection { inbound: Vec::new(), outbound: Vec::new() }
    }

    /// Hands bytes read from the socket to the parser.
    pub fn feed(&mut self, chunk: &[u8])
        ensures
            final(self).inbound@ == old(self).inbound@ + chunk@,
            final(self).outbound == old(self).outbound,
    {
        let mut i: usize = 0;
        while i < chunk.len()
            invariant
                i <= chunk@.len(),
                self.inbound@ == old(self).inbound@ + chunk@.subrange(0, i as int),
                self.outbound == old(self).outbound,
            decreases chunk@.len() - i,
        {
            let c = chunk[i];
            self.inbound.push(c);
            proof {
                assert(chunk@.subrange(0, i + 1) =~= chunk@.subrange(0, i as int).push(
                    chunk@[i as int],
                ));
                assert(self.inbound@ =~= old(self).inbound@ + chunk@.subrange(0, i + 1));
            }
            i = i + 1;
        }
        proof {
            assert(chunk@.subrange(0, chunk@.len() as int) =~= chunk@);
        }
    }

    /// Queues one frame for the wire. Fails exactly when the frame is
    /// too large for the 32-bit length prefix; nothing is queued then.
    pub fn write_frame(&mut self, frame: &Bing2BingFrame) -> (r: bool)
        ensures
            r ==> frame_bytes(frame@).len() <= u32::MAX && final(self).outbound@ == old(
                self,
            ).outbound@ + wire_bytes(frame@),
            !r ==> frame_bytes(frame@).len() > u32::MAX && final(self).outbound == old(
                self,
            ).outbound,
            final(self).inbound == old(self).inbound,
    {
        match encode_wire(frame) {
            Some(bytes) => {
                let mut i: usize = 0;
                while i < bytes.len()
                    invariant
                        i <= bytes@.len(),
                        self.outbound@ == old(self).outbound@ + bytes@.subrange(0, i as int),
                        self.inbound == old(self).inbound,
                    decreases bytes@.len() - i,
                {
                    let c = bytes[i];
                    self.outbound.push(c);
                    proof {
                        assert(bytes@.subrange(0, i + 1) =~= bytes@.subrange(0, i as int).push(
                            bytes@[i as int],
                        ));
                        assert(self.outbound@ =~= old(self).outbound@ + bytes@.subrange(
                            0,
                            i + 1,
                        ));
                    }
                    i = i + 1;
                }
                proof {
                    assert(bytes@.subrange(0, bytes@.len() as int) =~= bytes@);
                }
                true
            },
            None => false,
        }
    }

    /// Takes the queued outbound bytes, leaving the queue empty.
    pub fn take_outbound(&mut self) -> (r: Vec<u8>)
        ensures
            r@ == old(self).outbound@,
            final(self).outbound@ == Seq::<u8>::empty(),
            final(self).inbound == old(self).inbound,
    {
        let mut out: Vec<u8> = Vec::new();
        core::mem::swap(&mut out, &mut self.outbound);
        out
    }

    /// Attempts to take one whole frame off the inbound buffer.
    ///
    /// While fewer bytes are buffered than the length prefix asks for,
    /// the buffer is untouched and the read is pending. A complete,
    /// well-formed payload is removed from the buffer and returned as
    /// a frame; a complete but malformed payload is reported corrupt,
    /// and the connection should be closed.
    pub fn read_frame(&mut self) -> (r: ReadOutcome)
        ensures
            match r {
                ReadOutcome::Pending => *final(self) == *old(self) && (old(self).inbound@.len() < 4
                    || old(self).inbound@.len() < 4 + wire_len(old(self).inbound@)),
                ReadOutcome::Frame(f) => {
                    &&& old(self).inbound@.len() >= 4 + wire_len(old(self).inbound@)
                    &&& spec_decode(wire_payload(old(self).inbound@), 0) == Some(
                        (f@, wire_len(old(self).inbound@)),
                    )
                    &&& final(self).inbound@ == old(self).inbound@.skip(
                        4 + wire_len(old(self).inbound@),
                    )
                    &&& final(self).outbound == old(self).outbound
                },
                ReadOutcome::Corrupt => {
                    &&& old(self).inbound@.len() >= 4 + wire_len(old(self).inbound@)
                    &&& (spec_decode(wire_payload(old(self).inbound@), 0) is None
                        || spec_decode(wire_payload(old(self).inbound@), 0)->Some_0.1 != wire_len(
                        old(self).inbound@,
                    ))
                    &&& *final(self) == *old(self)
                },
            },
    {
        if self.inbound.len() < 4 {
            return ReadOutcome::Pending;
        }
        let b0 = self.inbound[0];
        let b1 = self.inbound[1];
        let b2 = self.inbound[2];
        let b3 = self.inbound[3];
        let n: u32 = ((b0 as u32) << 24) | ((b1 as u32) << 16) | ((b2 as u32) << 8) | (b3 as u32);
        proof {
            assert(self.inbound@.take(4)[0] == b0 && self.inbound@.take(4)[1] == b1
                && self.inbound@.take(4)[2] == b2 && self.inbound@.take(4)[3] == b3);
        }
        let nn = n as usize;
        if self.inbound.len() - 4 < nn {
            return ReadOutcome::Pending;
        }
        // Copy the payload out of the buffer.
        let mut payload: Vec<u8> = Vec::new();
        let mut i: usize = 0;
        while i < nn
            invariant
                i <= nn,
                nn + 4 <= usize::MAX,
                nn + 4 <= self.inbound@.len(),
                payload@ == self.inbound@.subrange(4, 4 + i as int),
                self == old(self),
            decreases nn - i,
        {
            let c = self.inbound[4 + i];
            payload.push(c);
            proof {
                assert(self.inbound@.subrange(4, 4 + (i + 1)) =~= self.inbound@.subrange(
                    4,
                    4 + i as int,
                ).push(self.inbound@[4 + i as int]));
            }
            i = i + 1;
        }
        proof {
            assert(payload@ =~= wire_payload(self.inbound@));
        }
        match crate::codec::decode_frame(&payload) {
            Some(f) => {
                // Drop the consumed bytes.
                let mut kept: Vec<u8> = Vec::new();
                let mut j: usize = 4 + nn;
                proof {
                    assert(self.inbound@.subrange(4 + nn as int, 4 + nn as int) =~= Seq::<
                        u8,
                    >::empty());
                }
                while j < self.inbound.len()
                    invariant
                        4 + nn <= j <= self.inbound@.len(),
                        kept@ == self.inbound@.subrange(4 + nn as int, j as int),
                        self == old(self),
                    decreases self.inbound@.len() - j,
                {
                    let c = self.inbound[j];
                    kept.push(c);
                    proof {
                        assert(self.inbound@.subrange(4 + nn as int, j + 1)
                            =~= self.inbound@.subrange(4 + nn as int, j as int).push(
                            self.inbound@[j as int],
                        ));
                    }
                    j = j + 1;
                }
                proof {
                    assert(kept@ =~= self.inbound@.skip(4 + nn as int));
                }
                self.inbound = kept;
                ReadOutcome::Frame(f)
            },
            None => ReadOutcome::Corrupt,
        }
    }
}

} // verus!
