//! The extension command: a numbered wrapper around an arbitrary
//! payload frame, the protocol's escape hatch.
use vstd::prelude::*;

use crate::cmd::string_of_item;
use crate::cmd::CommandV;
use crate::frame::frames_view;
use crate::frame::Bing2BingFrame;
use crate::frame::FrameV;
use crate::parse::Parse;
use crate::parse::ParseError;

verus! {

/// A payload frame under an extension id, re-broadcast across the
/// mesh; receivers with a handler for the id may also act on it.
#[derive(Debug, Clone)]
pub struct Extension {
    pub source: String,
    pub sequence_number: u64,
    pub extension_id: u64,
    pub payload: Bing2BingFrame,
}

impl View for Extension {
    type V = CommandV;

    open spec fn view(&self) -> CommandV {
        CommandV::Extension {
            source: self.source@,
            sequence_number: self.sequence_number,
            extension_id: self.extension_id,
            payload: self.payload@,
        }
    }
}

impl Extension {
    /// An extension with the given envelope, id and payload.
    pub fn new(source: String, sequence_number: u64, extension_id: u64, payload: Bing2BingFrame)
        -> (r: Extension)
        ensures
            r@ == (CommandV::Extension {
                source: source@,
                sequence_number,
                extension_id,
                payload: payload@,
            }),
    {
        Extension { source, sequence_number, extension_id, payload }
    }

    /// Reads the fields after the tag: source, sequence number,
    /// extension id, payload.
    pub(crate) fn parse_frames(parse: &mut Parse) -> (r: Result<Extension, ParseError>)
        requires
            old(parse).wf(),
        ensures
            final(parse).wf(),
            final(parse).items() == old(parse).items(),
            match r {
                Ok(c) => {
                    let items = old(parse).items();
                    let at = old(parse).at();
                    &&& at + 4 <= items.len()
                    &&& c@ matches CommandV::Extension {
                        source,
                        sequence_number,
                        extension_id,
                        payload,
                    } && string_of_item(items[at]) == Some(source) && items[at + 1]
                        == FrameV::Number(sequence_number) && items[at + 2] == FrameV::Number(
                        extension_id,
                    ) && items[at + 3] == payload
                    &&& final(parse).at() == at + 4
                },
                Err(_) => {
                    let items = old(parse).items();
                    let at = old(parse).at();
                    !(at + 4 <= items.len() && string_of_item(items[at]) is Some && items[at + 1]
                        is Number && items[at + 2] is Number)
                },
            },
    {
        let source = match parse.next_string() {
            Ok(s) => s,
            Err(e) => {
                return Err(e);
            },
        };
        let sequence_number = match parse.next_number() {
            Ok(n) => n,
            Err(e) => {
                return Err(e);
            },
        };
        let extension_id = match parse.next_number() {
            Ok(n) => n,
            Err(e) => {
                return Err(e);
            },
        };
        let payload = match parse.next() {
            Ok(f) => f,
            Err(e) => {
                return Err(e);
            },
        };
        proof {
            crate::cmd::lemma_string_item(old(parse).items()[old(parse).at()], source@);
        }
        Ok(Extension { source, sequence_number, extension_id, payload })
    }

    /// Turns this command into its canonical frame.
    pub fn into_frame(self) -> (r: Bing2BingFrame)
        ensures
            r@ == crate::cmd::cmd_frame(self@),
    {
        let ghost me = self@;
        let mut cmd: Vec<Bing2BingFrame> = Vec::new();
        cmd.push(Bing2BingFrame::Text("extension".to_owned()));
        cmd.push(Bing2BingFrame::Text(self.source));
        cmd.push(Bing2BingFrame::Number(self.sequence_number));
        cmd.push(Bing2BingFrame::Number(self.extension_id));
        cmd.push(self.payload);
        let r = Bing2BingFrame::Array(cmd);
        proof {
            crate::frame::lemma_frames_view(r->Array_0);
            assert(frames_view(r->Array_0) =~= crate::cmd::cmd_frame(me)->Array_0);
        }
        r
    }
}

} // verus!
