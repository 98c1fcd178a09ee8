//! The whisper command: a direct message carried hop by hop along an
//! explicit path of peers.
use vstd::prelude::*;

use crate::cmd::opt_list_prepend;
use crate::cmd::path_view;
use crate::cmd::string_of_item;
use crate::cmd::text_list_from;
use crate::cmd::CommandV;
use crate::frame::frames_view;
use crate::frame::Bing2BingFrame;
use crate::frame::FrameV;
use crate::parse::Parse;
use crate::parse::ParseError;

verus! {

/// A direct message from `source` to `destination`, forwarded along
/// `path` one hop at a time.
#[derive(Debug, Clone)]
pub struct Whisper {
    pub source: String,
    pub sequence_number: u64,
    pub destination: String,
    pub message: String,
    pub path: Vec<String>,
}

impl View for Whisper {
    type V = CommandV;

    open spec fn view(&self) -> CommandV {
        CommandV::Whisper {
            source: self.source@,
            sequence_number: self.sequence_number,
            destination: self.destination@,
            message: self.message@,
            path: path_view(self.path),
        }
    }
}

impl Whisper {
    /// A whisper with the given envelope, destination, message and
    /// remaining path.
    pub fn new(
        source: String,
        sequence_number: u64,
        destination: &str,
        message: &str,
        path: Vec<String>,
    ) -> (r: Whisper)
        ensures
            r@ == (CommandV::Whisper {
                source: source@,
                sequence_number,
                destination: destination@,
                message: message@,
                path: path_view(path),
            }),
    {
        let destination = destination.to_owned();
        let message = message.to_owned();
        Whisper { source, sequence_number, destination, message, path }
    }

    /// Reads the fields after the tag: source, sequence number,
    /// destination, message, path.
    pub(crate) fn parse_frames(parse: &mut Parse) -> (r: Result<Whisper, ParseError>)
        requires
            old(parse).wf(),
        ensures
            final(parse).wf(),
            final(parse).items() == old(parse).items(),
            match r {
                Ok(c) => {
                    let items = old(parse).items();
                    let at = old(parse).at();
                    &&& at + 5 <= items.len()
                    &&& c@ matches CommandV::Whisper {
                        source,
                        sequence_number,
                        destination,
                        message,
                        path,
                    } && string_of_item(items[at]) == Some(source) && items[at + 1]
                        == FrameV::Number(sequence_number) && items[at + 2] == FrameV::Text(
                        destination,
                    ) && items[at + 3] == FrameV::Text(message) && (items[at + 4]
                        matches FrameV::Array(path_items) && text_list_from(path_items, 0) == Some(
                        path,
                    ))
                    &&& final(parse).at() == at + 5
                },
                Err(_) => {
                    let items = old(parse).items();
                    let at = old(parse).at();
                    !(at + 5 <= items.len() && string_of_item(items[at]) is Some && items[at + 1]
                        is Number && items[at + 2] is Text && items[at + 3] is Text && (items[at
                        + 4] matches FrameV::Array(path_items) && text_list_from(path_items, 0)
                        is Some))
                },
            },
    {
        let source = match parse.next_string() {
            Ok(s) => s,
            Err(e) => {
                return Err(e);
            },
        };
        let sequence_number = match parse.next_number() {
            Ok(n) => n,
            Err(e) => {
                return Err(e);
            },
        };
        let destination = match parse.next_text() {
            Ok(s) => s,
            Err(e) => {
                return Err(e);
            },
        };
        let message = match parse.next_text() {
            Ok(s) => s,
            Err(e) => {
                return Err(e);
            },
        };
        let path_frames = match parse.next_array() {
            Ok(v) => v,
            Err(e) => {
                return Err(e);
            },
        };
        let path = match Whisper::parse_path_frames(path_frames) {
            Ok(p) => p,
            Err(e) => {
                return Err(e);
            },
        };
        proof {
            crate::cmd::lemma_string_item(old(parse).items()[old(parse).at()], source@);
        }
        Ok(Whisper { source, sequence_number, destination, message, path })
    }

    /// Reads a path array: every element must be text.
    pub(crate) fn parse_path_frames(path_frames: Vec<Bing2BingFrame>) -> (r: Result<
        Vec<String>,
        ParseError,
    >)
        ensures
            match r {
                Ok(path) => text_list_from(frames_view(path_frames), 0) == Some(path_view(path)),
                Err(_) => text_list_from(frames_view(path_frames), 0) is None,
            },
    {
        let ghost sv = frames_view(path_frames);
        proof {
            crate::frame::lemma_frames_view(path_frames);
        }
        let mut ret: Vec<String> = Vec::new();
        let mut i: usize = 0;
        proof {
            assert(opt_list_prepend(path_view(ret), text_list_from(sv, 0)) == text_list_from(
                sv,
                0,
            )) by {
                assert(path_view(ret) =~= Seq::<Seq<char>>::empty());
                match text_list_from(sv, 0) {
                    Some(s) => {
                        assert(Seq::<Seq<char>>::empty() + s =~= s);
                    },
                    None => {},
                }
            }
        }
        while i < path_frames.len()
            invariant
                i <= path_frames@.len(),
                sv == frames_view(path_frames),
                sv.len() == path_frames@.len(),
                forall|j: int|
                    0 <= j < path_frames@.len() ==> sv[j] == crate::frame::frame_view(
                        #[trigger] path_frames@[j],
                    ),
                text_list_from(sv, 0) == opt_list_prepend(path_view(ret), text_list_from(
                    sv,
                    i as int,
                )),
            decreases path_frames@.len() - i,
        {
            match &path_frames[i] {
                Bing2BingFrame::Text(name) => {
                    let ghost pre = path_view(ret);
                    let name = name.clone();
                    let ghost nv = name@;
                    proof {
                        assert(sv[i as int] == FrameV::Text(nv));
                        crate::cmd::lemma_opt_list_prepend_assoc(
                            pre,
                            seq![nv],
                            text_list_from(sv, i + 1),
                        );
                    }
                    ret.push(name);
                    proof {
                        assert(path_view(ret) =~= pre + seq![nv]);
                    }
                },
                _ => {
                    proof {
                        assert(!(sv[i as int] is Text));
                    }
                    return Err(ParseError::WrongKind);
                },
            }
            i = i + 1;
        }
        proof {
            match text_list_from(sv, 0) {
                Some(s) => {
                    assert(path_view(ret) + Seq::<Seq<char>>::empty() =~= path_view(ret));
                },
                None => {},
            }
        }
        Ok(ret)
    }

    /// Turns this command into its canonical frame.
    pub fn into_frame(self) -> (r: Bing2BingFrame)
        ensures
            r@ == crate::cmd::cmd_frame(self@),
    {
        let ghost me = self@;
        let ghost pv = path_view(self.path);
        let mut cmd: Vec<Bing2BingFrame> = Vec::new();
        cmd.push(Bing2BingFrame::Text("whisper".to_owned()));
        cmd.push(Bing2BingFrame::Text(self.source));
        cmd.push(Bing2BingFrame::Number(self.sequence_number));
        cmd.push(Bing2BingFrame::Text(self.destination));
        cmd.push(Bing2BingFrame::Text(self.message));
        let mut peers: Vec<Bing2BingFrame> = Vec::new();
        let path = self.path;
        let mut i: usize = 0;
        while i < path.len()
            invariant
                i <= path@.len(),
                pv == path_view(path),
                peers@.len() == i as int,
                forall|j: int|
                    0 <= j < i as int ==> crate::frame::frame_view(#[trigger] peers@[j])
                        == FrameV::Text(pv[j]),
            decreases path@.len() - i,
        {
            peers.push(Bing2BingFrame::Text(path[i].clone()));
            i = i + 1;
        }
        proof {
            crate::frame::lemma_frames_view(peers);
            assert(frames_view(peers) =~= pv.map_values(|p: Seq<char>| FrameV::Text(p)));
        }
        cmd.push(Bing2BingFrame::Array(peers));
        let r = Bing2BingFrame::Array(cmd);
        proof {
            crate::frame::lemma_frames_view(r->Array_0);
            assert(frames_view(r->Array_0) =~= crate::cmd::cmd_frame(me)->Array_0);
        }
        r
    }
}

} // verus!
