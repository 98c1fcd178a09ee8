//! The deliver command: an opaque byte blob addressed to one peer,
//! carried by broadcast until a routing strategy exists.
use vstd::prelude::*;

use crate::cmd::string_of_item;
use crate::cmd::CommandV;
use crate::frame::frames_view;
use crate::frame::Bing2BingFrame;
use crate::frame::FrameV;
use crate::parse::Parse;
use crate::parse::ParseError;

verus! {

/// An opaque byte blob from `source` addressed to `destination`.
#[derive(Debug, Clone)]
pub struct Deliver {
    pub source: String,
    pub sequence_number: u64,
    pub destination: String,
    pub data: Vec<u8>,
}

impl View for Deliver {
    type V = CommandV;

    open spec fn view(&self) -> CommandV {
        CommandV::Deliver {
            source: self.source@,
            sequence_number: self.sequence_number,
            destination: self.destination@,
            data: self.data@,
        }
    }
}

impl Deliver {
    /// A deliver with the given envelope, destination and payload.
    pub fn new(source: String, sequence_number: u64, destination: String, data: Vec<u8>) -> (r:
        Deliver)
        ensures
            r@ == (CommandV::Deliver {
                source: source@,
                sequence_number,
                destination: destination@,
                data: data@,
            }),
    {
        Deliver { source, sequence_number, destination, data }
    }

    /// Reads the fields after the tag: source, sequence number,
    /// destination, data.
    pub(crate) fn parse_frames(parse: &mut Parse) -> (r: Result<Deliver, ParseError>)
        requires
            old(parse).wf(),
        ensures
            final(parse).wf(),
            final(parse).items() == old(parse).items(),
            match r {
                Ok(c) => {
                    let items = old(parse).items();
                    let at = old(parse).at();
                    &&& at + 4 <= items.len()
                    &&& c@ matches CommandV::Deliver { source, sequence_number, destination, data }
                        && string_of_item(items[at]) == Some(source) && items[at + 1]
                        == FrameV::Number(sequence_number) && items[at + 2] == FrameV::Text(
                        destination,
                    ) && items[at + 3] == FrameV::Bulk(data)
                    &&& final(parse).at() == at + 4
                },
                Err(_) => {
                    let items = old(parse).items();
                    let at = old(parse).at();
                    !(at + 4 <= items.len() && string_of_item(items[at]) is Some && items[at + 1]
                        is Number && items[at + 2] is Text && items[at + 3] is Bulk)
                },
            },
    {
        let source = match parse.next_string() {
            Ok(s) => s,
            Err(e) => {
                return Err(e);
            },
        };
        let sequence_number = match parse.next_number() {
            Ok(n) => n,
            Err(e) => {
                return Err(e);
            },
        };
        let destination = match parse.next_text() {
            Ok(s) => s,
            Err(e) => {
                return Err(e);
            },
        };
        let data = match parse.next_bytes() {
            Ok(b) => b,
            Err(e) => {
                return Err(e);
            },
        };
        proof {
            crate::cmd::lemma_string_item(old(parse).items()[old(parse).at()], source@);
        }
        Ok(Deliver { source, sequence_number, destination, data })
    }

    /// Turns this command into its canonical frame.
    pub fn into_frame(self) -> (r: Bing2BingFrame)
        ensures
            r@ == crate::cmd::cmd_frame(self@),
    {
        let ghost me = self@;
        let mut cmd: Vec<Bing2BingFrame> = Vec::new();
        cmd.push(Bing2BingFrame::Text("deliver".to_owned()));
        cmd.push(Bing2BingFrame::Text(self.source));
        cmd.push(Bing2BingFrame::Number(self.sequence_number));
        cmd.push(Bing2BingFrame::Text(self.destination));
        cmd.push(Bing2BingFrame::Bulk(self.data));
        let r = Bing2BingFrame::Array(cmd);
        proof {
            crate::frame::lemma_frames_view(r->Array_0);
            assert(frames_view(r->Array_0) =~= crate::cmd::cmd_frame(me)->Array_0);
        }
        r
    }
}

} // verus!
