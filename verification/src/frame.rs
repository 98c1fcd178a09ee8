//! The frame: the self-describing tree value that is the only thing
//! ever transmitted on the wire.
use vstd::prelude::*;

verus! {

/// One serialization unit on the wire. Every command is an `Array`
/// frame whose first element is a `Text` tag naming the command.
///
/// A `Float` carries the IEEE 754 bit pattern of a 64-bit float as a
/// plain `u64`; callers that need floating-point arithmetic convert at
/// the boundary.
#[derive(Debug)]
pub enum Bing2BingFrame {
    Text(String),
    Number(u64),
    Float(u64),
    Bulk(Vec<u8>),
    Latency(String, u32),
    Array(Vec<Bing2BingFrame>),
    Null,
}

/// The mathematical value of a frame: strings become character
/// sequences, byte blobs become byte sequences, arrays become
/// sequences of frame values.
pub enum FrameV {
    Text(Seq<char>),
    Number(u64),
    Float(u64),
    Bulk(Seq<u8>),
    Latency(Seq<char>, u32),
    Array(Seq<FrameV>),
    Null,
}

/// The mathematical value of a frame.
pub open spec fn frame_view(f: Bing2BingFrame) -> FrameV
    decreases f,
{
    match f {
        Bing2BingFrame::Text(s) => FrameV::Text(s@),
        Bing2BingFrame::Number(n) => FrameV::Number(n),
        Bing2BingFrame::Float(bits) => FrameV::Float(bits),
        Bing2BingFrame::Bulk(b) => FrameV::Bulk(b@),
        Bing2BingFrame::Latency(s, ms) => FrameV::Latency(s@, ms),
        Bing2BingFrame::Array(elems) => FrameV::Array(frames_view_from(elems, 0)),
        Bing2BingFrame::Null => FrameV::Null,
    }
}

/// The mathematical values of the elements of `elems` from position
/// `i` on.
pub open spec fn frames_view_from(elems: Vec<Bing2BingFrame>, i: int) -> Seq<FrameV>
    decreases elems, elems@.len() - i,
    via frames_view_from_decreases
{
    if 0 <= i < elems@.len() {
        seq![frame_view(elems@[i])] + frames_view_from(elems, i + 1)
    } else {
        Seq::empty()
    }
}

#[via_fn]
proof fn frames_view_from_decreases(elems: Vec<Bing2BingFrame>, i: int) {
    if 0 <= i < elems@.len() {
        vstd::std_specs::vec::axiom_vec_index_decreases(elems, i);
    }
}

/// `frames_view_from(elems, i)` lists the value of each element from
/// position `i` on, in order.
pub proof fn lemma_frames_view_from(elems: Vec<Bing2BingFrame>, i: int)
    requires
        0 <= i <= elems@.len(),
    ensures
        frames_view_from(elems, i).len() == elems@.len() - i,
        forall|j: int|
            i <= j < elems@.len() ==> frames_view_from(elems, i)[j - i] == frame_view(elems@[j]),
    decreases elems@.len() - i,
{
    if i < elems@.len() {
        lemma_frames_view_from(elems, i + 1);
    }
}

/// The element values of an array frame, in order.
pub open spec fn frames_view(elems: Vec<Bing2BingFrame>) -> Seq<FrameV> {
    frames_view_from(elems, 0)
}

/// `frames_view` is the pointwise value of the vector's elements.
pub broadcast proof fn lemma_frames_view(elems: Vec<Bing2BingFrame>)
    ensures
        (#[trigger] frames_view(elems)).len() == elems@.len(),
        forall|j: int| 0 <= j < elems@.len() ==> frames_view(elems)[j] == frame_view(elems@[j]),
{
    lemma_frames_view_from(elems, 0);
}

impl View for Bing2BingFrame {
    type V = FrameV;

    open spec fn view(&self) -> FrameV {
        frame_view(*self)
    }
}

/// Equality of two byte vectors, element for element.
pub fn bytes_eq(a: &Vec<u8>, b: &Vec<u8>) -> (r: bool)
    ensures
        r == (a@ == b@),
{
    if a.len() != b.len() {
        return false;
    }
    let mut i: usize = 0;
    while i < a.len()
        invariant
            i <= a.len(),
            a@.len() == b@.len(),
            forall|j: int| 0 <= j < i as int ==> a@[j] == b@[j],
        decreases a.len() - i,
    {
        if a[i] != b[i] {
            return false;
        }
        i = i + 1;
    }
    proof {
        assert(a@ =~= b@);
    }
    true
}

/// Equality of two string slices, character for character.
pub fn str_eq(a: &str, b: &str) -> (r: bool)
    ensures
        r == (a@ == b@),
{
    let av = vstd::string::StrSliceExecFns::as_bytes_vec(a);
    let bv = vstd::string::StrSliceExecFns::as_bytes_vec(b);
    let r = bytes_eq(&av, &bv);
    proof {
        if av@ == bv@ {
            vstd::utf8::encode_utf8_decode_utf8(a@);
            vstd::utf8::encode_utf8_decode_utf8(b@);
        }
    }
    r
}

impl Clone for Bing2BingFrame {
    /// A clone has the same mathematical value as the original.
    fn clone(&self) -> (r: Self)
        ensures
            r@ == self@,
        decreases *self,
    {
        match self {
            Bing2BingFrame::Text(s) => Bing2BingFrame::Text(s.clone()),
            Bing2BingFrame::Number(n) => Bing2BingFrame::Number(*n),
            Bing2BingFrame::Float(bits) => Bing2BingFrame::Float(*bits),
            Bing2BingFrame::Bulk(b) => Bing2BingFrame::Bulk(b.clone()),
            Bing2BingFrame::Latency(s, ms) => Bing2BingFrame::Latency(s.clone(), *ms),
            Bing2BingFrame::Array(elems) => {
                let mut out: Vec<Bing2BingFrame> = Vec::new();
                let mut i: usize = 0;
                while i < elems.len()
                    invariant
                        *self == Bing2BingFrame::Array(*elems),
                        i <= elems.len(),
                        out@.len() == i as int,
                        forall|j: int| 0 <= j < i as int ==> out@[j]@ == elems@[j]@,
                    decreases elems.len() - i,
                {
                    proof {
                        assert(decreases_to!(*self => (*self)->Array_0@[i as int]));
                    }
                    out.push(elems[i].clone());
                    i = i + 1;
                }
                let result = Bing2BingFrame::Array(out);
                proof {
                    lemma_frames_view(out);
                    lemma_frames_view(*elems);
                    assert(frames_view(out) =~= frames_view(*elems));
                }
                result
            },
            Bing2BingFrame::Null => Bing2BingFrame::Null,
        }
    }
}

impl Bing2BingFrame {
    /// Structural equality of two frames: true exactly when their
    /// mathematical values coincide.
    pub fn frame_eq(&self, other: &Bing2BingFrame) -> (r: bool)
        ensures
            r == (self@ == other@),
        decreases *self,
    {
        match (self, other) {
            (Bing2BingFrame::Text(a), Bing2BingFrame::Text(b)) => *a == *b,
            (Bing2BingFrame::Number(a), Bing2BingFrame::Number(b)) => *a == *b,
            (Bing2BingFrame::Float(a), Bing2BingFrame::Float(b)) => *a == *b,
            (Bing2BingFrame::Bulk(a), Bing2BingFrame::Bulk(b)) => {
                let r = bytes_eq(a, b);
                proof {
                    if a@ == b@ {
                        assert(self@ == other@);
                    }
                }
                r
            },
            (Bing2BingFrame::Latency(a, am), Bing2BingFrame::Latency(b, bm)) => {
                *a == *b && *am == *bm
            },
            (Bing2BingFrame::Array(a), Bing2BingFrame::Array(b)) => {
                proof {
                    lemma_frames_view(*a);
                    lemma_frames_view(*b);
                }
                if a.len() != b.len() {
                    false
                } else {
                    let mut i: usize = 0;
                    let mut same = true;
                    while i < a.len()
                        invariant
                            *self == Bing2BingFrame::Array(*a),
                            *other == Bing2BingFrame::Array(*b),
                            i <= a.len(),
                            a@.len() == b@.len(),
                            same == (forall|j: int| 0 <= j < i as int ==> a@[j]@ == b@[j]@),
                        decreases a.len() - i,
                    {
                        proof {
                            assert(decreases_to!(*self => (*self)->Array_0@[i as int]));
                        }
                        if !a[i].frame_eq(&b[i]) {
                            same = false;
                            proof {
                                assert(a@[i as int]@ != b@[i as int]@);
                            }
                        }
                        i = i + 1;
                    }
                    proof {
                        lemma_frames_view(*a);
                        lemma_frames_view(*b);
                        let sa = frames_view(*a);
                        let sb = frames_view(*b);
                        if same {
                            assert(sa =~= sb);
                        } else {
                            let j = choose|j: int| 0 <= j < a@.len() && a@[j]@ != b@[j]@;
                            assert(sa[j] != sb[j]);
                        }
                    }
                    same
                }
            },
            (Bing2BingFrame::Null, Bing2BingFrame::Null) => true,
            _ => {
                proof {
                    assert(self@ != other@);
                }
                false
            },
        }
    }
}

} // verus!
