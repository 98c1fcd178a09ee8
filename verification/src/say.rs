//! The say command: a chat line propagated to every peer.
use vstd::prelude::*;

use crate::cmd::string_of_item;
use crate::cmd::CommandV;
use crate::frame::frames_view;
use crate::frame::Bing2BingFrame;
use crate::frame::FrameV;
use crate::parse::Parse;
use crate::parse::ParseError;

verus! {

/// A chat line from `source`, carried to every reachable peer.
#[derive(Debug, Clone)]
pub struct Say {
    pub source: String,
    pub sequence_number: u64,
    pub message: String,
}

impl View for Say {
    type V = CommandV;

    open spec fn view(&self) -> CommandV {
        CommandV::Say {
            source: self.source@,
            sequence_number: self.sequence_number,
            message: self.message@,
        }
    }
}

impl Say {
    /// A say command with the given envelope and message.
    pub fn new(source: String, sequence_number: u64, message: &str) -> (r: Say)
        ensures
            r@ == (CommandV::Say { source: source@, sequence_number, message: message@ }),
    {
        let message = message.to_owned();
        Say { source, sequence_number, message }
    }

    /// Reads the fields after the tag: source, sequence number,
    /// message.
    pub(crate) fn parse_frames(parse: &mut Parse) -> (r: Result<Say, ParseError>)
        requires
            old(parse).wf(),
        ensures
            final(parse).wf(),
            final(parse).items() == old(parse).items(),
            match r {
                Ok(c) => {
                    let items = old(parse).items();
                    let at = old(parse).at();
                    &&& at + 3 <= items.len()
                    &&& c@ matches CommandV::Say { source, sequence_number, message }
                        && string_of_item(items[at]) == Some(source) && items[at + 1]
                        == FrameV::Number(sequence_number) && items[at + 2] == FrameV::Text(message)
                    &&& final(parse).at() == at + 3
                },
                Err(_) => {
                    let items = old(parse).items();
                    let at = old(parse).at();
                    !(at + 3 <= items.len() && string_of_item(items[at]) is Some && items[at + 1]
                        is Number && items[at + 2] is Text)
                },
            },
    {
        let source = match parse.next_string() {
            Ok(s) => s,
            Err(e) => {
                return Err(e);
            },
        };
        let sequence_number = match parse.next_number() {
            Ok(n) => n,
            Err(e) => {
                return Err(e);
            },
        };
        let message = match parse.next_text() {
            Ok(s) => s,
            Err(e) => {
                return Err(e);
            },
        };
        proof {
            crate::cmd::lemma_string_item(
                old(parse).items()[old(parse).at()],
                source@,
            );
        }
        Ok(Say { source, sequence_number, message })
    }

    /// Turns this command into its canonical frame.
    pub fn into_frame(self) -> (r: Bing2BingFrame)
        ensures
            r@ == crate::cmd::cmd_frame(self@),
    {
        let ghost me = self@;
        let tag = Bing2BingFrame::Text("say".to_owned());
        let mut cmd: Vec<Bing2BingFrame> = Vec::new();
        cmd.push(tag);
        cmd.push(Bing2BingFrame::Text(self.source));
        cmd.push(Bing2BingFrame::Number(self.sequence_number));
        cmd.push(Bing2BingFrame::Text(self.message));
        let r = Bing2BingFrame::Array(cmd);
        proof {
            crate::frame::lemma_frames_view(r->Array_0);
            assert(frames_view(r->Array_0) =~= crate::cmd::cmd_frame(me)->Array_0);
        }
        r
    }
}

} // verus!
