//! The parse cursor: a typed positional reader over an array frame's
//! children.
use vstd::prelude::*;

use crate::frame::frames_view;
use crate::frame::Bing2BingFrame;
use crate::frame::FrameV;

verus! {

/// Why a cursor access failed.
#[derive(Debug, PartialEq, Eq, Structural, Clone, Copy)]
pub enum ParseError {
    /// No elements remain; the tracker response parser treats this as
    /// normal termination.
    EndOfStream,
    /// The next element is not of the requested kind.
    WrongKind,
    /// `finish` found unconsumed elements.
    TrailingElements,
    /// The frame handed to `Parse::new` is not an array.
    NotArray,
}

/// A cursor over the children of one array frame, yielding them in
/// order through typed accessors.
#[derive(Debug)]
pub struct Parse {
    frames: Vec<Bing2BingFrame>,
    pos: usize,
}

impl Parse {
    /// The values of all child frames under the cursor.
    pub closed spec fn items(&self) -> Seq<FrameV> {
        frames_view(self.frames)
    }

    /// The cursor's position: how many children have been consumed.
    pub closed spec fn at(&self) -> int {
        self.pos as int
    }

    /// The cursor never stands past the end.
    pub closed spec fn wf(&self) -> bool {
        self.pos <= self.frames@.len()
    }

    /// A cursor over the children of `frame`; fails when `frame` is
    /// not an array.
    pub fn new(frame: Bing2BingFrame) -> (r: Result<Parse, ParseError>)
        ensures
            match r {
                Ok(p) => frame@ matches FrameV::Array(elems) && p.items() == elems && p.at() == 0
                    && p.wf(),
                Err(e) => !(frame@ is Array) && e == ParseError::NotArray,
            },
    {
        match frame {
            Bing2BingFrame::Array(elems) => {
                let p = Parse { frames: elems, pos: 0 };
                Ok(p)
            },
            _ => Err(ParseError::NotArray),
        }
    }

    /// The next child frame, whatever its kind.
    pub fn next(&mut self) -> (r: Result<Bing2BingFrame, ParseError>)
        requires
            old(self).wf(),
        ensures
            final(self).items() == old(self).items(),
            final(self).wf(),
            match r {
                Ok(f) => old(self).at() < old(self).items().len() && f@ == old(self).items()[old(self).at()] && final(self).at() == old(self).at() + 1,
                Err(e) => old(self).at() == old(self).items().len() && e
                    == ParseError::EndOfStream && final(self).at() == old(self).at(),
            },
    {
        proof {
            crate::frame::lemma_frames_view(self.frames);
        }
        if self.pos < self.frames.len() {
            let f = self.frames[self.pos].clone();
            self.pos = self.pos + 1;
            Ok(f)
        } else {
            Err(ParseError::EndOfStream)
        }
    }

    /// The next child as text; fails when it is not a `Text` frame.
    pub fn next_text(&mut self) -> (r: Result<String, ParseError>)
        requires
            old(self).wf(),
        ensures
            final(self).items() == old(self).items(),
            final(self).wf(),
            match r {
                Ok(s) => old(self).at() < old(self).items().len() && old(self).items()[old(self).at()] == FrameV::Text(s@) && final(self).at() == old(self).at() + 1,
                Err(ParseError::EndOfStream) => old(self).at() == old(self).items().len() && final(self).at() == old(self).at(),
                Err(ParseError::WrongKind) => old(self).at() < old(self).items().len() && !(old(self).items()[old(self).at()] is Text) && final(self).at() == old(self).at() + 1,
                Err(_) => false,
            },
    {
        match self.next() {
            Ok(Bing2BingFrame::Text(s)) => Ok(s),
            Ok(_) => Err(ParseError::WrongKind),
            Err(_) => Err(ParseError::EndOfStream),
        }
    }

    /// The next child as a string: a `Text` frame, or a `Bulk` frame
    /// holding valid UTF-8.
    pub fn next_string(&mut self) -> (r: Result<String, ParseError>)
        requires
            old(self).wf(),
        ensures
            final(self).items() == old(self).items(),
            final(self).wf(),
            match r {
                Ok(s) => old(self).at() < old(self).items().len() && {
                    ||| old(self).items()[old(self).at()] == FrameV::Text(s@)
                    ||| (old(self).items()[old(self).at()] matches FrameV::Bulk(bb)
                        && vstd::utf8::encode_utf8(s@) == bb)
                } && final(self).at() == old(self).at() + 1,
                Err(ParseError::EndOfStream) => old(self).at() == old(self).items().len() && final(self).at() == old(self).at(),
                Err(ParseError::WrongKind) => old(self).at() < old(self).items().len() && {
                    let item = old(self).items()[old(self).at()];
                    !(item is Text) && (item matches FrameV::Bulk(bb) ==> !vstd::utf8::valid_utf8(
                        bb,
                    ))
                } && final(self).at() == old(self).at() + 1,
                Err(_) => false,
            },
    {
        match self.next() {
            Ok(Bing2BingFrame::Text(s)) => Ok(s),
            Ok(Bing2BingFrame::Bulk(b)) => {
                let ghost bb = b@;
                match crate::codec::string_from_utf8(b) {
                    Some(s) => Ok(s),
                    None => Err(ParseError::WrongKind),
                }
            },
            Ok(_) => Err(ParseError::WrongKind),
            Err(_) => Err(ParseError::EndOfStream),
        }
    }

    /// The next child as an unsigned 64-bit number.
    pub fn next_number(&mut self) -> (r: Result<u64, ParseError>)
        requires
            old(self).wf(),
        ensures
            final(self).items() == old(self).items(),
            final(self).wf(),
            match r {
                Ok(n) => old(self).at() < old(self).items().len() && old(self).items()[old(self).at()] == FrameV::Number(n) && final(self).at() == old(self).at() + 1,
                Err(ParseError::EndOfStream) => old(self).at() == old(self).items().len() && final(self).at() == old(self).at(),
                Err(ParseError::WrongKind) => old(self).at() < old(self).items().len() && !(old(self).items()[old(self).at()] is Number) && final(self).at() == old(self).at() + 1,
                Err(_) => false,
            },
    {
        match self.next() {
            Ok(Bing2BingFrame::Number(n)) => Ok(n),
            Ok(_) => Err(ParseError::WrongKind),
            Err(_) => Err(ParseError::EndOfStream),
        }
    }

    /// The next child as a 64-bit float, given as its bit pattern.
    pub fn next_float(&mut self) -> (r: Result<u64, ParseError>)
        requires
            old(self).wf(),
        ensures
            final(self).items() == old(self).items(),
            final(self).wf(),
            match r {
                Ok(bits) => old(self).at() < old(self).items().len() && old(self).items()[old(self).at()] == FrameV::Float(bits) && final(self).at() == old(self).at() + 1,
                Err(ParseError::EndOfStream) => old(self).at() == old(self).items().len() && final(self).at() == old(self).at(),
                Err(ParseError::WrongKind) => old(self).at() < old(self).items().len() && !(old(self).items()[old(self).at()] is Float) && final(self).at() == old(self).at() + 1,
                Err(_) => false,
            },
    {
        match self.next() {
            Ok(Bing2BingFrame::Float(bits)) => Ok(bits),
            Ok(_) => Err(ParseError::WrongKind),
            Err(_) => Err(ParseError::EndOfStream),
        }
    }

    /// The next child as a byte blob.
    pub fn next_bytes(&mut self) -> (r: Result<Vec<u8>, ParseError>)
        requires
            old(self).wf(),
        ensures
            final(self).items() == old(self).items(),
            final(self).wf(),
            match r {
                Ok(b) => old(self).at() < old(self).items().len() && old(self).items()[old(self).at()] == FrameV::Bulk(b@) && final(self).at() == old(self).at() + 1,
                Err(ParseError::EndOfStream) => old(self).at() == old(self).items().len() && final(self).at() == old(self).at(),
                Err(ParseError::WrongKind) => old(self).at() < old(self).items().len() && !(old(self).items()[old(self).at()] is Bulk) && final(self).at() == old(self).at() + 1,
                Err(_) => false,
            },
    {
        match self.next() {
            Ok(Bing2BingFrame::Bulk(b)) => Ok(b),
            Ok(_) => Err(ParseError::WrongKind),
            Err(_) => Err(ParseError::EndOfStream),
        }
    }

    /// The next child as an array's elements.
    pub fn next_array(&mut self) -> (r: Result<Vec<Bing2BingFrame>, ParseError>)
        requires
            old(self).wf(),
        ensures
            final(self).items() == old(self).items(),
            final(self).wf(),
            match r {
                Ok(elems) => old(self).at() < old(self).items().len() && old(self).items()[old(self).at()] == FrameV::Array(frames_view(elems)) && final(self).at() == old(self).at()
                    + 1,
                Err(ParseError::EndOfStream) => old(self).at() == old(self).items().len() && final(self).at() == old(self).at(),
                Err(ParseError::WrongKind) => old(self).at() < old(self).items().len() && !(old(self).items()[old(self).at()] is Array) && final(self).at() == old(self).at() + 1,
                Err(_) => false,
            },
    {
        match self.next() {
            Ok(Bing2BingFrame::Array(elems)) => Ok(elems),
            Ok(_) => Err(ParseError::WrongKind),
            Err(_) => Err(ParseError::EndOfStream),
        }
    }

    /// Succeeds exactly when every child has been consumed.
    pub fn finish(&self) -> (r: Result<(), ParseError>)
        requires
            self.wf(),
        ensures
            match r {
                Ok(()) => self.at() == self.items().len(),
                Err(e) => self.at() < self.items().len() && e == ParseError::TrailingElements,
            },
    {
        proof {
            crate::frame::lemma_frames_view(self.frames);
        }
        if self.pos == self.frames.len() {
            Ok(())
        } else {
            Err(ParseError::TrailingElements)
        }
    }
}

} // verus!
