//! The broadcast command: an opaque byte blob delivered to all
//! connected peers.
use vstd::prelude::*;

use crate::cmd::string_of_item;
use crate::cmd::CommandV;
use crate::frame::frames_view;
use crate::frame::Bing2BingFrame;
use crate::frame::FrameV;
use crate::parse::Parse;
use crate::parse::ParseError;

verus! {

/// An opaque byte blob from `source`, re-broadcast across the mesh.
#[derive(Debug, Clone)]
pub struct Broadcast {
    pub source: String,
    pub sequence_number: u64,
    pub data: Vec<u8>,
}

impl View for Broadcast {
    type V = CommandV;

    open spec fn view(&self) -> CommandV {
        CommandV::Broadcast {
            source: self.source@,
            sequence_number: self.sequence_number,
            data: self.data@,
        }
    }
}

impl Broadcast {
    /// A broadcast with the given envelope and payload.
    pub fn new(source: String, sequence_number: u64, data: Vec<u8>) -> (r: Broadcast)
        ensures
            r@ == (CommandV::Broadcast { source: source@, sequence_number, data: data@ }),
    {
        Broadcast { source, sequence_number, data }
    }

    /// Reads the fields after the tag: source, sequence number, data.
    pub(crate) fn parse_frames(parse: &mut Parse) -> (r: Result<Broadcast, ParseError>)
        requires
            old(parse).wf(),
        ensures
            final(parse).wf(),
            final(parse).items() == old(parse).items(),
            match r {
                Ok(c) => {
                    let items = old(parse).items();
                    let at = old(parse).at();
                    &&& at + 3 <= items.len()
                    &&& c@ matches CommandV::Broadcast { source, sequence_number, data }
                        && string_of_item(items[at]) == Some(source) && items[at + 1]
                        == FrameV::Number(sequence_number) && items[at + 2] == FrameV::Bulk(data)
                    &&& final(parse).at() == at + 3
                },
                Err(_) => {
                    let items = old(parse).items();
                    let at = old(parse).at();
                    !(at + 3 <= items.len() && string_of_item(items[at]) is Some && items[at + 1]
                        is Number && items[at + 2] is Bulk)
                },
            },
    {
        let source = match parse.next_string() {
            Ok(s) => s,
            Err(e) => {
                return Err(e);
            },
        };
        let sequence_number = match parse.next_number() {
            Ok(n) => n,
            Err(e) => {
                return Err(e);
            },
        };
        let data = match parse.next_bytes() {
            Ok(b) => b,
            Err(e) => {
                return Err(e);
            },
        };
        proof {
            crate::cmd::lemma_string_item(old(parse).items()[old(parse).at()], source@);
        }
        Ok(Broadcast { source, sequence_number, data })
    }

    /// Turns this command into its canonical frame.
    pub fn into_frame(self) -> (r: Bing2BingFrame)
        ensures
            r@ == crate::cmd::cmd_frame(self@),
    {
        let ghost me = self@;
        let mut cmd: Vec<Bing2BingFrame> = Vec::new();
        cmd.push(Bing2BingFrame::Text("broadcast".to_owned()));
        cmd.push(Bing2BingFrame::Text(self.source));
        cmd.push(Bing2BingFrame::Number(self.sequence_number));
        cmd.push(Bing2BingFrame::Bulk(self.data));
        let r = Bing2BingFrame::Array(cmd);
        proof {
            crate::frame::lemma_frames_view(r->Array_0);
            assert(frames_view(r->Array_0) =~= crate::cmd::cmd_frame(me)->Array_0);
        }
        r
    }
}

} // verus!
