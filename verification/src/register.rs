//! The register command: how a peer introduces itself to the tracker.
//! Peers themselves never act on it.
use vstd::prelude::*;

use crate::cmd::string_of_item;
use crate::cmd::CommandV;
use crate::frame::frames_view;
use crate::frame::Bing2BingFrame;
use crate::frame::FrameV;
use crate::parse::Parse;
use crate::parse::ParseError;

verus! {

/// A registration of `peer_name` at the address it listens on.
#[derive(Debug, Clone)]
pub struct Register {
    pub peer_name: String,
    pub sequence_number: u64,
    pub ip_address: String,
    pub port: String,
}

impl View for Register {
    type V = CommandV;

    open spec fn view(&self) -> CommandV {
        CommandV::Register {
            peer_name: self.peer_name@,
            sequence_number: self.sequence_number,
            ip_address: self.ip_address@,
            port: self.port@,
        }
    }
}

impl Register {
    /// A registration with the given name, sequence number and
    /// address.
    pub fn new(peer_name: &str, sequence_number: u64, ip_address: &str, port: &str) -> (r:
        Register)
        ensures
            r@ == (CommandV::Register {
                peer_name: peer_name@,
                sequence_number,
                ip_address: ip_address@,
                port: port@,
            }),
    {
        Register {
            peer_name: peer_name.to_owned(),
            sequence_number,
            ip_address: ip_address.to_owned(),
            port: port.to_owned(),
        }
    }

    /// Reads the fields after the tag: peer name, sequence number, ip,
    /// port.
    pub(crate) fn parse_frames(parse: &mut Parse) -> (r: Result<Register, ParseError>)
        requires
            old(parse).wf(),
        ensures
            final(parse).wf(),
            final(parse).items() == old(parse).items(),
            match r {
                Ok(c) => {
                    let items = old(parse).items();
                    let at = old(parse).at();
                    &&& at + 4 <= items.len()
                    &&& c@ matches CommandV::Register {
                        peer_name,
                        sequence_number,
                        ip_address,
                        port,
                    } && string_of_item(items[at]) == Some(peer_name) && items[at + 1]
                        == FrameV::Number(sequence_number) && items[at + 2] == FrameV::Text(
                        ip_address,
                    ) && items[at + 3] == FrameV::Text(port)
                    &&& final(parse).at() == at + 4
                },
                Err(_) => {
                    let items = old(parse).items();
                    let at = old(parse).at();
                    !(at + 4 <= items.len() && string_of_item(items[at]) is Some && items[at + 1]
                        is Number && items[at + 2] is Text && items[at + 3] is Text)
                },
            },
    {
        let peer_name = match parse.next_string() {
            Ok(s) => s,
            Err(e) => {
                return Err(e);
            },
        };
        let sequence_number = match parse.next_number() {
            Ok(n) => n,
            Err(e) => {
                return Err(e);
            },
        };
        let ip_address = match parse.next_text() {
            Ok(s) => s,
            Err(e) => {
                return Err(e);
            },
        };
        let port = match parse.next_text() {
            Ok(s) => s,
            Err(e) => {
                return Err(e);
            },
        };
        proof {
            crate::cmd::lemma_string_item(old(parse).items()[old(parse).at()], peer_name@);
        }
        Ok(Register { peer_name, sequence_number, ip_address, port })
    }

    /// Turns this command into its canonical frame.
    pub fn into_frame(self) -> (r: Bing2BingFrame)
        ensures
            r@ == crate::cmd::cmd_frame(self@),
    {
        let ghost me = self@;
        let mut cmd: Vec<Bing2BingFrame> = Vec::new();
        cmd.push(Bing2BingFrame::Text("register".to_owned()));
        cmd.push(Bing2BingFrame::Text(self.peer_name));
        cmd.push(Bing2BingFrame::Number(self.sequence_number));
        cmd.push(Bing2BingFrame::Text(self.ip_address));
        cmd.push(Bing2BingFrame::Text(self.port));
        let r = Bing2BingFrame::Array(cmd);
        proof {
            crate::frame::lemma_frames_view(r->Array_0);
            assert(frames_view(r->Array_0) =~= crate::cmd::cmd_frame(me)->Array_0);
        }
        r
    }
}

} // verus!
