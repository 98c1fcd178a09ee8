//! The ping command: a latency probe answered on the same connection.
use vstd::prelude::*;

use crate::cmd::CommandV;
use crate::frame::frames_view;
use crate::frame::Bing2BingFrame;
use crate::frame::FrameV;
use crate::parse::Parse;
use crate::parse::ParseError;

verus! {

/// A latency probe from `source`; the receiver answers with a bare
/// number frame carrying the probe's sequence number.
#[derive(Debug, Clone)]
pub struct Ping {
    pub source: String,
    pub sequence_number: u64,
}

impl View for Ping {
    type V = CommandV;

    open spec fn view(&self) -> CommandV {
        CommandV::Ping { source: self.source@, sequence_number: self.sequence_number }
    }
}

impl Ping {
    /// A ping with the given envelope.
    pub fn new(source: String, sequence_number: u64) -> (r: Ping)
        ensures
            r@ == (CommandV::Ping { source: source@, sequence_number }),
    {
        Ping { source, sequence_number }
    }

    /// Reads the fields after the tag: source, sequence number; the
    /// probe must end there.
    pub(crate) fn parse_frames(parse: &mut Parse) -> (r: Result<Ping, ParseError>)
        requires
            old(parse).wf(),
        ensures
            final(parse).wf(),
            final(parse).items() == old(parse).items(),
            match r {
                Ok(c) => {
                    let items = old(parse).items();
                    let at = old(parse).at();
                    &&& at + 2 == items.len()
                    &&& c@ matches CommandV::Ping { source, sequence_number } && items[at]
                        == FrameV::Text(source) && items[at + 1] == FrameV::Number(sequence_number)
                    &&& final(parse).at() == at + 2
                },
                Err(_) => {
                    let items = old(parse).items();
                    let at = old(parse).at();
                    !(at + 2 == items.len() && items[at] is Text && items[at + 1] is Number)
                },
            },
    {
        let source = match parse.next_text() {
            Ok(s) => s,
            Err(e) => {
                return Err(e);
            },
        };
        let sequence_number = match parse.next_number() {
            Ok(n) => n,
            Err(e) => {
                return Err(e);
            },
        };
        match parse.finish() {
            Ok(()) => Ok(Ping { source, sequence_number }),
            Err(e) => Err(e),
        }
    }

    /// Turns this command into its canonical frame.
    pub fn into_frame(self) -> (r: Bing2BingFrame)
        ensures
            r@ == crate::cmd::cmd_frame(self@),
    {
        let ghost me = self@;
        let mut cmd: Vec<Bing2BingFrame> = Vec::new();
        cmd.push(Bing2BingFrame::Text("ping".to_owned()));
        cmd.push(Bing2BingFrame::Text(self.source));
        cmd.push(Bing2BingFrame::Number(self.sequence_number));
        let r = Bing2BingFrame::Array(cmd);
        proof {
            crate::frame::lemma_frames_view(r->Array_0);
            assert(frames_view(r->Array_0) =~= crate::cmd::cmd_frame(me)->Array_0);
        }
        r
    }
}

} // verus!
