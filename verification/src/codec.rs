//! The frame codec: a JSON-like textual representation of the frame
//! union, together with the 32-bit big-endian length prefix that
//! delimits frames on the wire.
//!
//! Text and numbers appear as in JSON (`"hi"`, `7`); arrays as
//! `[e1,e2]`; `Null` as `null`. The variants JSON has no tag for are
//! written as one-key objects: a float as `{"f":bits}` (the IEEE 754
//! bit pattern as a decimal integer), a byte blob as `{"b":[1,2,3]}`,
//! and a latency pair as `{"l":["name",ms]}`.
use vstd::prelude::*;

use crate::frame::Bing2BingFrame;
use crate::frame::FrameV;

verus! {

broadcast use vstd::seq::axiom_seq_index_decreases, vstd::seq::axiom_seq_subrange_decreases;

/// Quote: the byte `"`.
pub const QUOTE: u8 = 34;

/// Backslash: the escape byte.
pub const BACKSLASH: u8 = 92;

/// Comma: the element separator.
pub const COMMA: u8 = 44;

/// The byte `[`.
pub const LBRACKET: u8 = 91;

/// The byte `]`.
pub const RBRACKET: u8 = 93;

/// The byte `{`.
pub const LBRACE: u8 = 123;

/// The byte `}`.
pub const RBRACE: u8 = 125;

/// The byte `:`.
pub const COLON: u8 = 58;

/// True when `b` is an ASCII decimal digit.
pub open spec fn is_digit(b: u8) -> bool {
    48 <= b <= 57
}

/// The decimal digits of `n`, most significant first, with no leading
/// zeros.
pub open spec fn dec_digits(n: u64) -> Seq<u8>
    decreases n,
{
    if n < 10 {
        seq![(n + 48) as u8]
    } else {
        dec_digits(n / 10) + seq![((n % 10) + 48) as u8]
    }
}

/// One byte of string content, escaped: `"` and `\` gain a leading
/// backslash, every other byte stands for itself.
pub open spec fn esc_byte(b: u8) -> Seq<u8> {
    if b == QUOTE || b == BACKSLASH {
        seq![BACKSLASH, b]
    } else {
        seq![b]
    }
}

/// String content, escaped byte for byte.
pub open spec fn esc_bytes(s: Seq<u8>) -> Seq<u8>
    decreases s.len(),
{
    if s.len() == 0 {
        Seq::empty()
    } else {
        esc_byte(s[0]) + esc_bytes(s.drop_first())
    }
}

/// A quoted string: the UTF-8 bytes of `s`, escaped, between quotes.
pub open spec fn text_bytes(s: Seq<char>) -> Seq<u8> {
    seq![QUOTE] + esc_bytes(vstd::utf8::encode_utf8(s)) + seq![QUOTE]
}

/// The decimal values of the bytes of a blob, comma-separated.
pub open spec fn bulk_items_bytes(b: Seq<u8>) -> Seq<u8>
    decreases b.len(),
{
    if b.len() == 0 {
        Seq::empty()
    } else if b.len() == 1 {
        dec_digits(b[0] as u64)
    } else {
        dec_digits(b[0] as u64) + seq![COMMA] + bulk_items_bytes(b.drop_first())
    }
}

/// The textual encoding of a frame value.
pub open spec fn frame_bytes(v: FrameV) -> Seq<u8>
    decreases v, 0int,
{
    match v {
        FrameV::Text(s) => text_bytes(s),
        FrameV::Number(n) => dec_digits(n),
        FrameV::Float(bits) => seq![LBRACE, QUOTE, 102u8, QUOTE, COLON] + dec_digits(bits) + seq![
            RBRACE,
        ],
        FrameV::Bulk(b) => seq![LBRACE, QUOTE, 98u8, QUOTE, COLON, LBRACKET]
            + bulk_items_bytes(b) + seq![RBRACKET, RBRACE],
        FrameV::Latency(s, ms) => seq![LBRACE, QUOTE, 108u8, QUOTE, COLON, LBRACKET]
            + text_bytes(s) + seq![COMMA] + dec_digits(ms as u64) + seq![RBRACKET, RBRACE],
        FrameV::Array(elems) => seq![LBRACKET] + array_items_bytes(elems) + seq![RBRACKET],
        FrameV::Null => seq![110u8, 117u8, 108u8, 108u8],
    }
}

/// The encodings of the elements of an array, comma-separated.
pub open spec fn array_items_bytes(elems: Seq<FrameV>) -> Seq<u8>
    decreases elems, 1int,
{
    if elems.len() == 0 {
        Seq::empty()
    } else if elems.len() == 1 {
        frame_bytes(elems[0])
    } else {
        frame_bytes(elems[0]) + seq![COMMA] + array_items_bytes(elems.drop_first())
    }
}

/// Scans quoted-string content from `pos` up to the closing quote.
/// Returns the unescaped content bytes and the position just past the
/// closing quote.
pub open spec fn spec_scan_str(b: Seq<u8>, pos: int) -> Option<(Seq<u8>, int)>
    decreases b.len() - pos,
{
    if pos < 0 || pos >= b.len() {
        None
    } else if b[pos] == QUOTE {
        Some((Seq::empty(), pos + 1))
    } else if b[pos] == BACKSLASH {
        if pos + 1 < b.len() && (b[pos + 1] == QUOTE || b[pos + 1] == BACKSLASH) {
            match spec_scan_str(b, pos + 2) {
                Some((rest, end)) => Some((seq![b[pos + 1]] + rest, end)),
                None => None,
            }
        } else {
            None
        }
    } else {
        match spec_scan_str(b, pos + 1) {
            Some((rest, end)) => Some((seq![b[pos]] + rest, end)),
            None => None,
        }
    }
}

/// The position just past the run of decimal digits starting at `pos`.
pub open spec fn spec_num_end(b: Seq<u8>, pos: int) -> int
    decreases b.len() - pos,
{
    if 0 <= pos < b.len() && is_digit(b[pos]) {
        spec_num_end(b, pos + 1)
    } else {
        pos
    }
}

/// The value of the decimal digits `b[pos..end]`, as an unbounded
/// natural number.
pub open spec fn spec_digits_val(b: Seq<u8>, pos: int, end: int) -> nat
    decreases end - pos,
{
    if pos >= end {
        0
    } else {
        spec_digits_val(b, pos, end - 1) * 10 + (b[end - 1] - 48) as nat
    }
}

/// Scans one unsigned decimal number at `pos`: its value and the
/// position just past its digits. Rejects values above `max`.
pub open spec fn spec_scan_num(b: Seq<u8>, pos: int, max: nat) -> Option<(nat, int)> {
    if 0 <= pos < b.len() && is_digit(b[pos]) {
        let end = spec_num_end(b, pos);
        let val = spec_digits_val(b, pos, end);
        if val <= max {
            Some((val, end))
        } else {
            None
        }
    } else {
        None
    }
}

/// Decodes one frame starting at `pos`: the frame value and the
/// position just past its encoding.
pub open spec fn spec_decode(b: Seq<u8>, pos: int) -> Option<(FrameV, int)>
    decreases b.len() - pos, 2int,
{
    if pos < 0 || pos >= b.len() {
        None
    } else if b[pos] == QUOTE {
        match spec_scan_str(b, pos + 1) {
            Some((content, end)) => if vstd::utf8::valid_utf8(content) {
                Some((FrameV::Text(vstd::utf8::decode_utf8(content)), end))
            } else {
                None
            },
            None => None,
        }
    } else if is_digit(b[pos]) {
        match spec_scan_num(b, pos, u64::MAX as nat) {
            Some((val, end)) => Some((FrameV::Number(val as u64), end)),
            None => None,
        }
    } else if b[pos] == 110 {
        if pos + 4 <= b.len() && b[pos + 1] == 117 && b[pos + 2] == 108 && b[pos + 3] == 108 {
            Some((FrameV::Null, pos + 4))
        } else {
            None
        }
    } else if b[pos] == LBRACKET {
        match spec_decode_items(b, pos + 1) {
            Some((elems, end)) => Some((FrameV::Array(elems), end)),
            None => None,
        }
    } else if b[pos] == LBRACE {
        spec_decode_tagged(b, pos)
    } else {
        None
    }
}

/// Decodes the one-key-object forms `{"f":n}`, `{"b":[..]}` and
/// `{"l":["..",n]}` starting at the opening brace.
pub open spec fn spec_decode_tagged(b: Seq<u8>, pos: int) -> Option<(FrameV, int)>
    decreases b.len() - pos, 1int,
{
    if !(0 <= pos && pos + 5 <= b.len() && b[pos] == LBRACE && b[pos + 1] == QUOTE && b[pos + 3]
        == QUOTE && b[pos + 4] == COLON) {
        None
    } else if b[pos + 2] == 102 {
        // {"f":bits}
        match spec_scan_num(b, pos + 5, u64::MAX as nat) {
            Some((val, end)) => if end < b.len() && b[end] == RBRACE {
                Some((FrameV::Float(val as u64), end + 1))
            } else {
                None
            },
            None => None,
        }
    } else if b[pos + 2] == 98 {
        // {"b":[1,2,3]}
        if b.len() - pos >= 6 && b[pos + 5] == LBRACKET {
            match spec_scan_byte_items(b, pos + 6) {
                Some((bytes, end)) => if end < b.len() && b[end] == RBRACE {
                    Some((FrameV::Bulk(bytes), end + 1))
                } else {
                    None
                },
                None => None,
            }
        } else {
            None
        }
    } else if b[pos + 2] == 108 {
        // {"l":["name",ms]}
        if b.len() - pos >= 7 && b[pos + 5] == LBRACKET && b[pos + 6] == QUOTE {
            match spec_scan_str(b, pos + 7) {
                Some((content, e1)) => if vstd::utf8::valid_utf8(content) && e1 < b.len() && b[e1]
                    == COMMA {
                    match spec_scan_num(b, e1 + 1, u32::MAX as nat) {
                        Some((val, e2)) => if e2 + 2 <= b.len() && b[e2] == RBRACKET && b[e2 + 1]
                            == RBRACE {
                            Some(
                                (
                                    FrameV::Latency(vstd::utf8::decode_utf8(content), val as u32),
                                    e2 + 2,
                                ),
                            )
                        } else {
                            None
                        },
                        None => None,
                    }
                } else {
                    None
                },
                None => None,
            }
        } else {
            None
        }
    } else {
        None
    }
}

/// Decodes the elements of an array from `pos` (just past `[`) up to
/// and including the closing bracket.
pub open spec fn spec_decode_items(b: Seq<u8>, pos: int) -> Option<(Seq<FrameV>, int)>
    decreases b.len() - pos, 3int,
{
    if pos < 0 || pos >= b.len() {
        None
    } else if b[pos] == RBRACKET {
        Some((Seq::empty(), pos + 1))
    } else {
        match spec_decode(b, pos) {
            Some((v, e)) => if e <= pos || e >= b.len() {
                None
            } else if b[e] == COMMA {
                match spec_decode_items(b, e + 1) {
                    Some((rest, e2)) => if rest.len() == 0 {
                        None
                    } else {
                        Some((seq![v] + rest, e2))
                    },
                    None => None,
                }
            } else if b[e] == RBRACKET {
                Some((seq![v], e + 1))
            } else {
                None
            },
            None => None,
        }
    }
}

/// Scans the decimal byte values of a blob from `pos` (just past `[`)
/// up to and including the closing bracket.
pub open spec fn spec_scan_byte_items(b: Seq<u8>, pos: int) -> Option<(Seq<u8>, int)>
    decreases b.len() - pos,
{
    if pos < 0 || pos >= b.len() {
        None
    } else if b[pos] == RBRACKET {
        Some((Seq::empty(), pos + 1))
    } else {
        match spec_scan_num(b, pos, 255) {
            Some((val, e)) => if e <= pos || e >= b.len() {
                None
            } else if b[e] == COMMA {
                match spec_scan_byte_items(b, e + 1) {
                    Some((rest, e2)) => if rest.len() == 0 {
                        None
                    } else {
                        Some((seq![val as u8] + rest, e2))
                    },
                    None => None,
                }
            } else if b[e] == RBRACKET {
                Some((seq![val as u8], e + 1))
            } else {
                None
            },
            None => None,
        }
    }
}

/// Every byte of a decimal rendering is a digit, and there is at
/// least one.
pub proof fn lemma_dec_digits_shape(n: u64)
    ensures
        dec_digits(n).len() >= 1,
        forall|i: int| 0 <= i < dec_digits(n).len() ==> is_digit(#[trigger] dec_digits(n)[i]),
    decreases n,
{
    if n >= 10 {
        lemma_dec_digits_shape(n / 10);
    }
}

/// A digit run embedded in `b` and followed by a non-digit (or the
/// end) ends exactly where it ends.
pub proof fn lemma_num_end(b: Seq<u8>, pos: int, end: int)
    requires
        0 <= pos <= end <= b.len(),
        forall|i: int| pos <= i < end ==> is_digit(#[trigger] b[i]),
        end == b.len() || !is_digit(b[end]),
    ensures
        spec_num_end(b, pos) == end,
    decreases end - pos,
{
    if pos < end {
        lemma_num_end(b, pos + 1, end);
    }
}

/// An embedded sequence is readable pointwise.
pub proof fn lemma_embedded(b: Seq<u8>, pos: int, d: Seq<u8>)
    requires
        0 <= pos,
        pos + d.len() <= b.len(),
        b.subrange(pos, pos + d.len() as int) == d,
    ensures
        forall|j: int| 0 <= j < d.len() ==> b[pos + j] == #[trigger] d[j],
{
    assert forall|j: int| 0 <= j < d.len() implies b[pos + j] == #[trigger] d[j] by {
        assert(d[j] == b.subrange(pos, pos + d.len() as int)[j]);
    }
}

/// The value of an embedded decimal rendering of `n` is `n`.
pub proof fn lemma_digits_val(b: Seq<u8>, pos: int, n: u64)
    requires
        0 <= pos,
        pos + dec_digits(n).len() <= b.len(),
        b.subrange(pos, pos + dec_digits(n).len() as int) == dec_digits(n),
    ensures
        spec_digits_val(b, pos, pos + dec_digits(n).len() as int) == n,
    decreases n,
{
    let d = dec_digits(n);
    lemma_embedded(b, pos, d);
    if n < 10 {
        assert(b[pos + 0] == d[0]) by {
            assert(d[0] == b.subrange(pos, pos + d.len() as int)[0]);
        }
        assert(spec_digits_val(b, pos, pos) == 0);
        assert(spec_digits_val(b, pos, pos + 1) == (b[pos] - 48) as nat);
    } else {
        let dq = dec_digits(n / 10);
        assert(d == dq + seq![((n % 10) + 48) as u8]);
        assert(b.subrange(pos, pos + dq.len() as int) =~= dq) by {
            assert forall|i: int| 0 <= i < dq.len() implies b.subrange(
                pos,
                pos + dq.len() as int,
            )[i] == dq[i] by {
                assert(b[pos + i] == d[i]);
                assert(d[i] == dq[i]);
            }
        }
        lemma_digits_val(b, pos, n / 10);
        let end = pos + d.len() as int;
        assert(b[pos + (d.len() - 1)] == d[d.len() - 1]);
        assert(spec_digits_val(b, pos, end) == spec_digits_val(b, pos, end - 1) * 10 + (b[end - 1]
            - 48) as nat);
    }
}

/// Scanning a number over an embedded decimal rendering of `n`,
/// followed by a non-digit or the end, yields `n` and stops just past
/// it.
pub proof fn lemma_scan_num(b: Seq<u8>, pos: int, n: u64, max: nat)
    requires
        0 <= pos,
        pos + dec_digits(n).len() <= b.len(),
        b.subrange(pos, pos + dec_digits(n).len() as int) == dec_digits(n),
        pos + dec_digits(n).len() == b.len() || !is_digit(b[pos + dec_digits(n).len() as int]),
        n as nat <= max,
    ensures
        spec_scan_num(b, pos, max) == Some((n as nat, pos + dec_digits(n).len() as int)),
{
    let d = dec_digits(n);
    let end = pos + d.len() as int;
    lemma_dec_digits_shape(n);
    lemma_embedded(b, pos, d);
    assert forall|i: int| pos <= i < end implies is_digit(#[trigger] b[i]) by {
        assert(b[pos + (i - pos)] == d[i - pos]);
    }
    assert(is_digit(b[pos]));
    lemma_num_end(b, pos, end);
    lemma_digits_val(b, pos, n);
}

/// Escaping distributes over concatenation.
pub proof fn lemma_esc_bytes_append(a: Seq<u8>, c: Seq<u8>)
    ensures
        esc_bytes(a + c) == esc_bytes(a) + esc_bytes(c),
    decreases a.len(),
{
    if a.len() == 0 {
        assert(a + c =~= c);
        assert(esc_bytes(a) + esc_bytes(c) =~= esc_bytes(c));
    } else {
        assert((a + c).drop_first() =~= a.drop_first() + c);
        lemma_esc_bytes_append(a.drop_first(), c);
        assert(esc_byte((a + c)[0]) + (esc_bytes(a.drop_first()) + esc_bytes(c)) =~= (esc_byte(
            a[0],
        ) + esc_bytes(a.drop_first())) + esc_bytes(c));
    }
}

/// Scanning string content over an embedded escaped rendering of
/// `content`, followed by a closing quote, yields `content` back and
/// stops just past the quote.
pub proof fn lemma_scan_str(b: Seq<u8>, pos: int, content: Seq<u8>)
    requires
        0 <= pos,
        pos + esc_bytes(content).len() + 1 <= b.len(),
        b.subrange(pos, pos + esc_bytes(content).len() as int) == esc_bytes(content),
        b[pos + esc_bytes(content).len() as int] == QUOTE,
    ensures
        spec_scan_str(b, pos) == Some(
            (content, pos + esc_bytes(content).len() + 1),
        ),
    decreases content.len(),
{
    let e = esc_bytes(content);
    if content.len() == 0 {
        assert(b[pos] == QUOTE);
    } else {
        let c = content[0];
        let rest = content.drop_first();
        assert(e == esc_byte(c) + esc_bytes(rest));
        let erest = esc_bytes(rest);
        lemma_embedded(b, pos, e);
        if c == QUOTE || c == BACKSLASH {
            assert(b[pos + 0] == e[0] && b[pos + 1] == e[1]);
            assert(e[0] == BACKSLASH && e[1] == c);
            assert(b.subrange(pos + 2, pos + 2 + erest.len() as int) =~= erest) by {
                assert forall|i: int| 0 <= i < erest.len() implies b.subrange(
                    pos + 2,
                    pos + 2 + erest.len() as int,
                )[i] == erest[i] by {
                    assert(b[pos + (i + 2)] == e[i + 2]);
                    assert(e[i + 2] == erest[i]);
                }
            }
            lemma_scan_str(b, pos + 2, rest);
            assert(seq![c] + rest =~= content);
        } else {
            assert(b[pos + 0] == e[0]);
            assert(e[0] == c);
            assert(b.subrange(pos + 1, pos + 1 + erest.len() as int) =~= erest) by {
                assert forall|i: int| 0 <= i < erest.len() implies b.subrange(
                    pos + 1,
                    pos + 1 + erest.len() as int,
                )[i] == erest[i] by {
                    assert(b[pos + (i + 1)] == e[i + 1]);
                    assert(e[i + 1] == erest[i]);
                }
            }
            lemma_scan_str(b, pos + 1, rest);
            assert(seq![c] + rest =~= content);
        }
    }
}

/// A subrange of an embedded sequence is the corresponding subrange of
/// the original.
pub proof fn lemma_sub_embedded(b: Seq<u8>, pos: int, whole: Seq<u8>, off: int, len: int)
    requires
        0 <= pos,
        pos + whole.len() <= b.len(),
        b.subrange(pos, pos + whole.len() as int) == whole,
        0 <= off,
        0 <= len,
        off + len <= whole.len(),
    ensures
        b.subrange(pos + off, pos + off + len) =~= whole.subrange(off, off + len),
{
    b.lemma_slice_of_slice(pos, pos + whole.len() as int, off, off + len);
}

/// Scanning byte items over an embedded rendering of `items`,
/// followed by a closing bracket, yields `items` back.
pub proof fn lemma_scan_byte_items(b: Seq<u8>, pos: int, items: Seq<u8>)
    requires
        0 <= pos,
        pos + bulk_items_bytes(items).len() + 1 <= b.len(),
        b.subrange(pos, pos + bulk_items_bytes(items).len() as int) == bulk_items_bytes(items),
        b[pos + bulk_items_bytes(items).len() as int] == RBRACKET,
    ensures
        spec_scan_byte_items(b, pos) == Some(
            (items, pos + bulk_items_bytes(items).len() + 1),
        ),
    decreases items.len(),
{
    let w = bulk_items_bytes(items);
    lemma_embedded(b, pos, w);
    if items.len() == 0 {
        assert(b[pos] == RBRACKET);
    } else if items.len() == 1 {
        let d = dec_digits(items[0] as u64);
        assert(w == d);
        lemma_scan_num(b, pos, items[0] as u64, 255);
        lemma_dec_digits_shape(items[0] as u64);
        assert(b[pos + 0] == d[0]);
        assert(seq![items[0]] =~= items);
    } else {
        let d = dec_digits(items[0] as u64);
        let rest = bulk_items_bytes(items.drop_first());
        assert(w == d + seq![COMMA] + rest);
        lemma_dec_digits_shape(items[0] as u64);
        assert(b.subrange(pos, pos + d.len() as int) =~= d) by {
            lemma_sub_embedded(b, pos, w, 0, d.len() as int);
            assert(w.subrange(0, d.len() as int) =~= d);
        }
        assert(b[pos + d.len()] == w[d.len() as int]);
        assert(w[d.len() as int] == COMMA);
        lemma_scan_num(b, pos, items[0] as u64, 255);
        let e1 = pos + d.len() as int;
        assert(b[pos + 0] == d[0]);
        let rpos = e1 + 1;
        assert(b.subrange(rpos, rpos + rest.len() as int) =~= rest) by {
            lemma_sub_embedded(b, pos, w, d.len() + 1 as int, rest.len() as int);
            assert(w.subrange(d.len() + 1 as int, d.len() + 1 + rest.len() as int) =~= rest);
        }
        assert(b[rpos + rest.len()] == RBRACKET);
        lemma_scan_byte_items(b, rpos, items.drop_first());
        assert(items.drop_first().len() > 0);
        assert(seq![items[0]] + items.drop_first() =~= items);
    }
}

/// The first byte of every encoding picks out its decoder branch: a
/// quote for text, a digit for a number, `n` for null, a bracket for
/// an array, a brace for the tagged forms.
pub proof fn lemma_frame_bytes_first(v: FrameV)
    ensures
        frame_bytes(v).len() >= 1,
        match v {
            FrameV::Text(_) => frame_bytes(v)[0] == QUOTE,
            FrameV::Number(_) => is_digit(frame_bytes(v)[0]),
            FrameV::Float(_) => frame_bytes(v)[0] == LBRACE,
            FrameV::Bulk(_) => frame_bytes(v)[0] == LBRACE,
            FrameV::Latency(_, _) => frame_bytes(v)[0] == LBRACE,
            FrameV::Array(_) => frame_bytes(v)[0] == LBRACKET,
            FrameV::Null => frame_bytes(v)[0] == 110,
        },
{
    match v {
        FrameV::Number(n) => {
            lemma_dec_digits_shape(n);
        },
        _ => {},
    }
}

/// Decoding an embedded encoding of `v`, with no digit directly after
/// it, yields `v` back and stops just past it.
pub proof fn lemma_decode_encoded(b: Seq<u8>, pos: int, v: FrameV)
    requires
        0 <= pos,
        pos + frame_bytes(v).len() <= b.len(),
        b.subrange(pos, pos + frame_bytes(v).len() as int) == frame_bytes(v),
        pos + frame_bytes(v).len() == b.len() || !is_digit(b[pos + frame_bytes(v).len() as int]),
    ensures
        spec_decode(b, pos) == Some((v, pos + frame_bytes(v).len() as int)),
    decreases v, 0int,
{
    let w = frame_bytes(v);
    lemma_embedded(b, pos, w);
    lemma_frame_bytes_first(v);
    assert(b[pos + 0] == w[0]);
    match v {
        FrameV::Text(s) => {
            let esc = esc_bytes(vstd::utf8::encode_utf8(s));
            assert(w == seq![QUOTE] + esc + seq![QUOTE]);
            assert(b.subrange(pos + 1, pos + 1 + esc.len() as int) =~= esc) by {
                lemma_sub_embedded(b, pos, w, 1, esc.len() as int);
                assert(w.subrange(1, 1 + esc.len() as int) =~= esc);
            }
            assert(b[pos + (1 + esc.len())] == w[1 + esc.len() as int]);
            assert(w[1 + esc.len() as int] == QUOTE);
            lemma_scan_str(b, pos + 1, vstd::utf8::encode_utf8(s));
            vstd::utf8::encode_utf8_valid_utf8(s);
            vstd::utf8::encode_utf8_decode_utf8(s);
        },
        FrameV::Number(n) => {
            assert(b[pos] != QUOTE);
            lemma_scan_num(b, pos, n, u64::MAX as nat);
        },
        FrameV::Float(bits) => {
            let d = dec_digits(bits);
            assert(w == seq![LBRACE, QUOTE, 102u8, QUOTE, COLON] + d + seq![RBRACE]);
            assert(b[pos + 1] == w[1] && b[pos + 2] == w[2] && b[pos + 3] == w[3] && b[pos + 4]
                == w[4]);
            assert(b.subrange(pos + 5, pos + 5 + d.len() as int) =~= d) by {
                lemma_sub_embedded(b, pos, w, 5, d.len() as int);
                assert(w.subrange(5, 5 + d.len() as int) =~= d);
            }
            assert(b[pos + (5 + d.len())] == w[5 + d.len() as int]);
            assert(w[5 + d.len() as int] == RBRACE);
            lemma_scan_num(b, pos + 5, bits, u64::MAX as nat);
        },
        FrameV::Bulk(items) => {
            let bi = bulk_items_bytes(items);
            assert(w == seq![LBRACE, QUOTE, 98u8, QUOTE, COLON, LBRACKET] + bi + seq![
                RBRACKET,
                RBRACE,
            ]);
            assert(b[pos + 1] == w[1] && b[pos + 2] == w[2] && b[pos + 3] == w[3] && b[pos + 4]
                == w[4] && b[pos + 5] == w[5]);
            assert(b.subrange(pos + 6, pos + 6 + bi.len() as int) =~= bi) by {
                lemma_sub_embedded(b, pos, w, 6, bi.len() as int);
                assert(w.subrange(6, 6 + bi.len() as int) =~= bi);
            }
            assert(b[pos + (6 + bi.len())] == w[6 + bi.len() as int]);
            assert(b[pos + (6 + bi.len() + 1)] == w[6 + bi.len() + 1 as int]);
            assert(w[6 + bi.len() as int] == RBRACKET && w[6 + bi.len() + 1 as int] == RBRACE);
            lemma_scan_byte_items(b, pos + 6, items);
        },
        FrameV::Latency(s, ms) => {
            let tb = text_bytes(s);
            let esc = esc_bytes(vstd::utf8::encode_utf8(s));
            let d = dec_digits(ms as u64);
            assert(w == seq![LBRACE, QUOTE, 108u8, QUOTE, COLON, LBRACKET] + tb + seq![COMMA] + d
                + seq![RBRACKET, RBRACE]);
            assert(b[pos + 1] == w[1] && b[pos + 2] == w[2] && b[pos + 3] == w[3] && b[pos + 4]
                == w[4] && b[pos + 5] == w[5] && b[pos + 6] == w[6]);
            assert(w[6] == tb[0] && tb[0] == QUOTE);
            assert(b.subrange(pos + 7, pos + 7 + esc.len() as int) =~= esc) by {
                lemma_sub_embedded(b, pos, w, 7, esc.len() as int);
                assert(w.subrange(7, 7 + esc.len() as int) =~= esc);
            }
            assert(b[pos + (7 + esc.len())] == w[7 + esc.len() as int]);
            assert(w[7 + esc.len() as int] == QUOTE);
            lemma_scan_str(b, pos + 7, vstd::utf8::encode_utf8(s));
            vstd::utf8::encode_utf8_valid_utf8(s);
            vstd::utf8::encode_utf8_decode_utf8(s);
            let e1 = pos + 7 + esc.len() + 1;
            assert(b[pos + (8 + esc.len())] == w[8 + esc.len() as int]);
            assert(w[8 + esc.len() as int] == COMMA);
            assert(b.subrange(e1 + 1, e1 + 1 + d.len() as int) =~= d) by {
                lemma_sub_embedded(b, pos, w, 9 + esc.len() as int, d.len() as int);
                assert(w.subrange(9 + esc.len() as int, 9 + esc.len() + d.len() as int) =~= d);
            }
            assert(b[pos + (9 + esc.len() + d.len())] == w[9 + esc.len() + d.len() as int]);
            assert(b[pos + (10 + esc.len() + d.len())] == w[10 + esc.len() + d.len() as int]);
            assert(w[9 + esc.len() + d.len() as int] == RBRACKET && w[10 + esc.len() + d.len() as int]
                == RBRACE);
            lemma_scan_num(b, e1 + 1, ms as u64, u32::MAX as nat);
        },
        FrameV::Array(elems) => {
            let ib = array_items_bytes(elems);
            assert(w == seq![LBRACKET] + ib + seq![RBRACKET]);
            assert(b.subrange(pos + 1, pos + 1 + ib.len() as int) =~= ib) by {
                lemma_sub_embedded(b, pos, w, 1, ib.len() as int);
                assert(w.subrange(1, 1 + ib.len() as int) =~= ib);
            }
            assert(b[pos + (1 + ib.len())] == w[1 + ib.len() as int]);
            assert(w[1 + ib.len() as int] == RBRACKET);
            lemma_decode_encoded_items(b, pos + 1, elems);
        },
        FrameV::Null => {
            assert(b[pos + 1] == w[1] && b[pos + 2] == w[2] && b[pos + 3] == w[3]);
        },
    }
}

/// Decoding the embedded encodings of `elems`, followed by a closing
/// bracket, yields `elems` back and stops just past the bracket.
pub proof fn lemma_decode_encoded_items(b: Seq<u8>, pos: int, elems: Seq<FrameV>)
    requires
        0 <= pos,
        pos + array_items_bytes(elems).len() + 1 <= b.len(),
        b.subrange(pos, pos + array_items_bytes(elems).len() as int) == array_items_bytes(elems),
        b[pos + array_items_bytes(elems).len() as int] == RBRACKET,
    ensures
        spec_decode_items(b, pos) == Some(
            (elems, pos + array_items_bytes(elems).len() + 1),
        ),
    decreases elems, 1int,
{
    let w = array_items_bytes(elems);
    lemma_embedded(b, pos, w);
    if elems.len() == 0 {
        assert(b[pos] == RBRACKET);
    } else if elems.len() == 1 {
        let fb = frame_bytes(elems[0]);
        assert(w == fb);
        lemma_frame_bytes_first(elems[0]);
        assert(b[pos + 0] == fb[0]);
        assert(b[pos] != RBRACKET);
        lemma_decode_encoded(b, pos, elems[0]);
        let e = pos + fb.len() as int;
        assert(b[e] == RBRACKET);
        assert(seq![elems[0]] =~= elems);
    } else {
        let fb = frame_bytes(elems[0]);
        let rest = array_items_bytes(elems.drop_first());
        assert(w == fb + seq![COMMA] + rest);
        lemma_frame_bytes_first(elems[0]);
        assert(b.subrange(pos, pos + fb.len() as int) =~= fb) by {
            lemma_sub_embedded(b, pos, w, 0, fb.len() as int);
            assert(w.subrange(0, fb.len() as int) =~= fb);
        }
        assert(b[pos + fb.len()] == w[fb.len() as int]);
        assert(w[fb.len() as int] == COMMA);
        assert(b[pos + 0] == fb[0]);
        assert(b[pos] != RBRACKET);
        lemma_decode_encoded(b, pos, elems[0]);
        let e = pos + fb.len() as int;
        let rpos = e + 1;
        assert(b.subrange(rpos, rpos + rest.len() as int) =~= rest) by {
            lemma_sub_embedded(b, pos, w, fb.len() + 1 as int, rest.len() as int);
            assert(w.subrange(fb.len() + 1 as int, fb.len() + 1 + rest.len() as int) =~= rest);
        }
        assert(b[rpos + rest.len()] == RBRACKET);
        lemma_decode_encoded_items(b, rpos, elems.drop_first());
        assert(elems.drop_first().len() > 0);
        assert(seq![elems[0]] + elems.drop_first() =~= elems);
    }
}

/// Decoding a complete encoding of `v`, alone in a buffer, yields `v`:
/// the encoder and the decoder invert each other.
pub proof fn lemma_codec_round_trip(v: FrameV)
    ensures
        spec_decode(frame_bytes(v), 0) == Some((v, frame_bytes(v).len() as int)),
{
    let w = frame_bytes(v);
    assert(w.subrange(0, w.len() as int) =~= w);
    lemma_decode_encoded(w, 0, v);
}

/// Appending an item to a non-empty blob appends a comma and its
/// digits; to an empty blob, just its digits.
pub proof fn lemma_bulk_items_push(s: Seq<u8>, x: u8)
    ensures
        s.len() == 0 ==> bulk_items_bytes(s.push(x)) == dec_digits(x as u64),
        s.len() > 0 ==> bulk_items_bytes(s.push(x)) == bulk_items_bytes(s) + seq![COMMA]
            + dec_digits(x as u64),
    decreases s.len(),
{
    if s.len() == 0 {
        assert(s.push(x) =~= seq![x]);
        assert(bulk_items_bytes(seq![x]) == dec_digits(x as u64));
    } else {
        lemma_bulk_items_push(s.drop_first(), x);
        assert(s.push(x).drop_first() =~= s.drop_first().push(x));
        assert(s.push(x)[0] == s[0]);
        assert(s.push(x).len() == s.len() + 1);
        if s.len() == 1 {
            assert(bulk_items_bytes(s.push(x)) == dec_digits(s[0] as u64) + seq![COMMA]
                + bulk_items_bytes(s.drop_first().push(x)));
            assert(bulk_items_bytes(s) == dec_digits(s[0] as u64));
            assert(bulk_items_bytes(s.drop_first().push(x)) == dec_digits(x as u64));
        } else {
            assert(bulk_items_bytes(s) + seq![COMMA] + dec_digits(x as u64) =~= dec_digits(
                s[0] as u64,
            ) + seq![COMMA] + (bulk_items_bytes(s.drop_first()) + seq![COMMA] + dec_digits(
                x as u64,
            )));
        }
    }
}

/// Appending an element to a non-empty array body appends a comma and
/// its encoding; to an empty body, just its encoding.
pub proof fn lemma_array_items_push(s: Seq<FrameV>, v: FrameV)
    ensures
        s.len() == 0 ==> array_items_bytes(s.push(v)) == frame_bytes(v),
        s.len() > 0 ==> array_items_bytes(s.push(v)) == array_items_bytes(s) + seq![COMMA]
            + frame_bytes(v),
    decreases s.len(),
{
    if s.len() == 0 {
        assert(s.push(v) =~= seq![v]);
        assert(array_items_bytes(seq![v]) == frame_bytes(seq![v][0]));
    } else {
        lemma_array_items_push(s.drop_first(), v);
        assert(s.push(v).drop_first() =~= s.drop_first().push(v));
        assert(s.push(v)[0] == s[0]);
        assert(s.push(v).len() == s.len() + 1);
        if s.len() == 1 {
            assert(array_items_bytes(s.push(v)) == frame_bytes(s[0]) + seq![COMMA]
                + array_items_bytes(s.drop_first().push(v)));
            assert(array_items_bytes(s) == frame_bytes(s[0]));
            assert(array_items_bytes(s.drop_first().push(v)) == frame_bytes(v));
        } else {
            assert(array_items_bytes(s) + seq![COMMA] + frame_bytes(v) =~= frame_bytes(s[0])
                + seq![COMMA] + (array_items_bytes(s.drop_first()) + seq![COMMA] + frame_bytes(
                v,
            )));
        }
    }
}

/// Appends the decimal digits of `n` to `out`.
pub fn push_dec(n: u64, out: &mut Vec<u8>)
    ensures
        final(out)@ == old(out)@ + dec_digits(n),
    decreases n,
{
    if n < 10 {
        out.push((n as u8) + 48);
        assert(out@ =~= old(out)@ + dec_digits(n));
    } else {
        push_dec(n / 10, out);
        out.push(((n % 10) as u8) + 48);
        assert(out@ =~= old(out)@ + dec_digits(n));
    }
}

/// Appends the escaped content bytes of `s` to `out`.
pub fn push_escaped(s: &Vec<u8>, out: &mut Vec<u8>)
    ensures
        final(out)@ == old(out)@ + esc_bytes(s@),
{
    let mut i: usize = 0;
    proof {
        assert(s@.subrange(0, 0) =~= Seq::<u8>::empty());
        assert(out@ =~= out@ + esc_bytes(s@.subrange(0, 0)));
    }
    while i < s.len()
        invariant
            i <= s.len(),
            out@ == old(out)@ + esc_bytes(s@.subrange(0, i as int)),
        decreases s.len() - i,
    {
        let c = s[i];
        if c == QUOTE || c == BACKSLASH {
            out.push(BACKSLASH);
            out.push(c);
        } else {
            out.push(c);
        }
        proof {
            let pre = s@.subrange(0, i as int);
            lemma_esc_bytes_append(pre, seq![c]);
            assert(esc_bytes(seq![c]) =~= esc_byte(c)) by {
                assert(seq![c].drop_first() =~= Seq::<u8>::empty());
                assert(esc_bytes(seq![c]) == esc_byte(c) + esc_bytes(Seq::<u8>::empty()));
                assert(esc_byte(c) + Seq::<u8>::empty() =~= esc_byte(c));
            }
            assert(s@.subrange(0, i + 1) =~= pre + seq![c]);
            assert(out@ =~= old(out)@ + esc_bytes(s@.subrange(0, i + 1)));
        }
        i = i + 1;
    }
    proof {
        assert(s@.subrange(0, s@.len() as int) =~= s@);
    }
}

/// Appends the quoted, escaped rendering of `s` to `out`.
pub fn push_text(s: &str, out: &mut Vec<u8>)
    ensures
        final(out)@ == old(out)@ + text_bytes(s@),
{
    let bytes = vstd::string::StrSliceExecFns::as_bytes_vec(s);
    out.push(QUOTE);
    push_escaped(&bytes, out);
    out.push(QUOTE);
    proof {
        assert(out@ =~= old(out)@ + text_bytes(s@));
    }
}

impl Bing2BingFrame {
    /// Appends the textual encoding of this frame to `out`.
    pub fn encode_into(&self, out: &mut Vec<u8>)
        ensures
            final(out)@ == old(out)@ + frame_bytes(self@),
        decreases *self,
    {
        match self {
            Bing2BingFrame::Text(s) => {
                push_text(s.as_str(), out);
            },
            Bing2BingFrame::Number(n) => {
                push_dec(*n, out);
            },
            Bing2BingFrame::Float(bits) => {
                out.push(LBRACE);
                out.push(QUOTE);
                out.push(102);
                out.push(QUOTE);
                out.push(COLON);
                push_dec(*bits, out);
                out.push(RBRACE);
                proof {
                    assert(out@ =~= old(out)@ + frame_bytes(self@));
                }
            },
            Bing2BingFrame::Bulk(b) => {
                out.push(LBRACE);
                out.push(QUOTE);
                out.push(98);
                out.push(QUOTE);
                out.push(COLON);
                out.push(LBRACKET);
                let ghost mid = out@;
                let mut i: usize = 0;
                proof {
                    assert(b@.subrange(0, 0) =~= Seq::<u8>::empty());
                }
                while i < b.len()
                    invariant
                        i <= b.len(),
                        out@ == mid + bulk_items_bytes(b@.subrange(0, i as int)),
                    decreases b.len() - i,
                {
                    if i > 0 {
                        out.push(COMMA);
                    }
                    push_dec(b[i] as u64, out);
                    proof {
                        let pre = b@.subrange(0, i as int);
                        lemma_bulk_items_push(pre, b@[i as int]);
                        assert(b@.subrange(0, i + 1) =~= pre.push(b@[i as int]));
                        assert(out@ =~= mid + bulk_items_bytes(b@.subrange(0, i + 1)));
                    }
                    i = i + 1;
                }
                out.push(RBRACKET);
                out.push(RBRACE);
                proof {
                    assert(b@.subrange(0, b@.len() as int) =~= b@);
                    assert(out@ =~= old(out)@ + frame_bytes(self@));
                }
            },
            Bing2BingFrame::Latency(s, ms) => {
                out.push(LBRACE);
                out.push(QUOTE);
                out.push(108);
                out.push(QUOTE);
                out.push(COLON);
                out.push(LBRACKET);
                push_text(s.as_str(), out);
                out.push(COMMA);
                push_dec(*ms as u64, out);
                out.push(RBRACKET);
                out.push(RBRACE);
                proof {
                    assert(out@ =~= old(out)@ + frame_bytes(self@));
                }
            },
            Bing2BingFrame::Array(elems) => {
                out.push(LBRACKET);
                let ghost mid = out@;
                let mut i: usize = 0;
                proof {
                    crate::frame::lemma_frames_view(*elems);
                    assert(crate::frame::frames_view(*elems).subrange(0, 0)
                        =~= Seq::<FrameV>::empty());
                }
                while i < elems.len()
                    invariant
                        *self == Bing2BingFrame::Array(*elems),
                        i <= elems.len(),
                        out@ == mid + array_items_bytes(
                            crate::frame::frames_view(*elems).subrange(0, i as int),
                        ),
                    decreases elems.len() - i,
                {
                    if i > 0 {
                        out.push(COMMA);
                    }
                    proof {
                        assert(decreases_to!(*self => (*self)->Array_0@[i as int]));
                    }
                    elems[i].encode_into(out);
                    proof {
                        crate::frame::lemma_frames_view(*elems);
                        let views = crate::frame::frames_view(*elems);
                        let pre = views.subrange(0, i as int);
                        lemma_array_items_push(pre, views[i as int]);
                        assert(views.subrange(0, i + 1) =~= pre.push(views[i as int]));
                        assert(out@ =~= mid + array_items_bytes(views.subrange(0, i + 1)));
                    }
                    i = i + 1;
                }
                out.push(RBRACKET);
                proof {
                    crate::frame::lemma_frames_view(*elems);
                    let views = crate::frame::frames_view(*elems);
                    assert(views.subrange(0, views.len() as int) =~= views);
                    assert(out@ =~= old(out)@ + frame_bytes(self@));
                }
            },
            Bing2BingFrame::Null => {
                out.push(110);
                out.push(117);
                out.push(108);
                out.push(108);
                proof {
                    assert(out@ =~= old(out)@ + frame_bytes(self@));
                }
            },
        }
    }

    /// The textual encoding of this frame.
    pub fn encode(&self) -> (r: Vec<u8>)
        ensures
            r@ == frame_bytes(self@),
    {
        let mut out: Vec<u8> = Vec::new();
        self.encode_into(&mut out);
        proof {
            assert(Seq::<u8>::empty() + frame_bytes(self@) =~= frame_bytes(self@));
        }
        out
    }
}

/// Prefixes `pre` onto the content of a successful scan.
pub open spec fn opt_prepend(pre: Seq<u8>, o: Option<(Seq<u8>, int)>) -> Option<(Seq<u8>, int)> {
    match o {
        Some((s, e)) => Some((pre + s, e)),
        None => None,
    }
}

/// Prefixing twice is prefixing the concatenation.
pub proof fn lemma_opt_prepend_assoc(p1: Seq<u8>, p2: Seq<u8>, o: Option<(Seq<u8>, int)>)
    ensures
        opt_prepend(p1, opt_prepend(p2, o)) == opt_prepend(p1 + p2, o),
{
    match o {
        Some((s, e)) => {
            assert(p1 + (p2 + s) =~= (p1 + p2) + s);
        },
        None => {},
    }
}

/// Relies on `String::from_utf8`: it returns the string whose UTF-8
/// encoding is exactly the given bytes, and fails exactly on byte
/// sequences that are not valid UTF-8.
#[verifier::external_body]
pub(crate) fn string_from_utf8(bytes: Vec<u8>) -> (r: Option<String>)
    ensures
        match r {
            Some(s) => vstd::utf8::encode_utf8(s@) == bytes@,
            None => !vstd::utf8::valid_utf8(bytes@),
        },
{
    match String::from_utf8(bytes) {
        Ok(s) => Some(s),
        Err(_) => None,
    }
}

/// The closing position of a scan lies past its start and within the
/// buffer.
pub proof fn lemma_scan_str_bounds(b: Seq<u8>, pos: int)
    requires
        spec_scan_str(b, pos) is Some,
    ensures
        pos < spec_scan_str(b, pos)->Some_0.1 <= b.len(),
    decreases b.len() - pos,
{
    if b[pos] == QUOTE {
    } else if b[pos] == BACKSLASH {
        lemma_scan_str_bounds(b, pos + 2);
    } else {
        lemma_scan_str_bounds(b, pos + 1);
    }
}

/// A digit run never ends before it starts, nor past the buffer.
pub proof fn lemma_num_end_bounds(b: Seq<u8>, pos: int)
    requires
        0 <= pos <= b.len(),
    ensures
        pos <= spec_num_end(b, pos) <= b.len(),
    decreases b.len() - pos,
{
    if pos < b.len() && is_digit(b[pos]) {
        lemma_num_end_bounds(b, pos + 1);
    }
}

/// A digit run looks the same from any point inside it.
pub proof fn lemma_num_end_stable(b: Seq<u8>, pos: int, cur: int)
    requires
        0 <= pos <= cur <= b.len(),
        forall|i: int| pos <= i < cur ==> is_digit(#[trigger] b[i]),
    ensures
        spec_num_end(b, pos) == spec_num_end(b, cur),
    decreases cur - pos,
{
    if pos < cur {
        lemma_num_end_stable(b, pos + 1, cur);
    }
}

/// Reading more digits never shrinks the value.
pub proof fn lemma_digits_val_mono(b: Seq<u8>, pos: int, e1: int, e2: int)
    requires
        pos <= e1 <= e2,
    ensures
        spec_digits_val(b, pos, e1) <= spec_digits_val(b, pos, e2),
    decreases e2 - e1,
{
    if e1 < e2 {
        lemma_digits_val_mono(b, pos, e1, e2 - 1);
        assert(spec_digits_val(b, pos, e2) == spec_digits_val(b, pos, e2 - 1) * 10 + (b[e2 - 1]
            - 48) as nat);
    }
}

/// Scans quoted-string content: the executable counterpart of
/// [`spec_scan_str`].
pub fn scan_str_exec(b: &Vec<u8>, pos: usize) -> (r: Option<(Vec<u8>, usize)>)
    ensures
        match r {
            Some((content, end)) => spec_scan_str(b@, pos as int) == Some(
                (content@, end as int),
            ) && pos < end <= b@.len(),
            None => spec_scan_str(b@, pos as int) is None,
        },
{
    if pos >= b.len() {
        return None;
    }
    let mut acc: Vec<u8> = Vec::new();
    let mut cur: usize = pos;
    proof {
        assert(opt_prepend(Seq::<u8>::empty(), spec_scan_str(b@, pos as int)) == spec_scan_str(
            b@,
            pos as int,
        )) by {
            match spec_scan_str(b@, pos as int) {
                Some((s, e)) => {
                    assert(Seq::<u8>::empty() + s =~= s);
                },
                None => {},
            }
        }
    }
    loop
        invariant
            pos <= cur <= b@.len(),
            spec_scan_str(b@, pos as int) == opt_prepend(acc@, spec_scan_str(b@, cur as int)),
        decreases b@.len() - cur,
    {
        if cur >= b.len() {
            return None;
        }
        let c = b[cur];
        if c == QUOTE {
            proof {
                assert(acc@ + Seq::<u8>::empty() =~= acc@);
            }
            return Some((acc, cur + 1));
        } else if c == BACKSLASH {
            if cur + 1 < b.len() && (b[cur + 1] == QUOTE || b[cur + 1] == BACKSLASH) {
                let x = b[cur + 1];
                proof {
                    lemma_opt_prepend_assoc(acc@, seq![x], spec_scan_str(b@, cur + 2));
                    assert(acc@ + seq![x] =~= acc@.push(x));
                }
                acc.push(x);
                cur = cur + 2;
            } else {
                return None;
            }
        } else {
            proof {
                lemma_opt_prepend_assoc(acc@, seq![c], spec_scan_str(b@, cur + 1));
                assert(acc@ + seq![c] =~= acc@.push(c));
            }
            acc.push(c);
            cur = cur + 1;
        }
    }
}

/// Scans one decimal number: the executable counterpart of
/// [`spec_scan_num`].
pub fn scan_num_exec(b: &Vec<u8>, pos: usize, max: u64) -> (r: Option<(u64, usize)>)
    ensures
        match r {
            Some((val, end)) => spec_scan_num(b@, pos as int, max as nat) == Some(
                (val as nat, end as int),
            ) && pos < end <= b@.len(),
            None => spec_scan_num(b@, pos as int, max as nat) is None,
        },
{
    if pos >= b.len() || b[pos] < 48 || b[pos] > 57 {
        return None;
    }
    let mut cur: usize = pos;
    let mut val: u64 = 0;
    proof {
        lemma_num_end_bounds(b@, pos as int);
    }
    loop
        invariant
            pos <= cur <= b@.len(),
            pos < b@.len() && is_digit(b@[pos as int]),
            forall|i: int| pos <= i < cur ==> is_digit(#[trigger] b@[i]),
            val as nat == spec_digits_val(b@, pos as int, cur as int),
            val <= max,
        decreases b@.len() - cur,
    {
        if cur >= b.len() || b[cur] < 48 || b[cur] > 57 {
            proof {
                lemma_num_end_stable(b@, pos as int, cur as int);
            }
            return Some((val, cur));
        }
        let d = b[cur] - 48;
        if val > max / 10 || (val == max / 10 && (d as u64) > max % 10) {
            // The run's total value already exceeds `max`.
            proof {
                lemma_num_end_stable(b@, pos as int, cur as int);
                lemma_num_end_bounds(b@, cur as int);
                let end = spec_num_end(b@, pos as int);
                assert(spec_num_end(b@, cur as int) == spec_num_end(b@, cur + 1)) by {
                    assert(is_digit(b@[cur as int]));
                }
                lemma_num_end_bounds(b@, cur + 1);
                assert(spec_digits_val(b@, pos as int, cur + 1) == (val as nat) * 10 + (d
                    as nat));
                lemma_digits_val_mono(b@, pos as int, cur + 1, end);
                assert((val as nat) * 10 + (d as nat) > max as nat) by {
                    if val > max / 10 {
                        assert((val as nat) * 10 >= (max as nat / 10 + 1) * 10) by (nonlinear_arith)
                            requires val as nat >= max as nat / 10 + 1;
                    }
                }
            }
            return None;
        }
        proof {
            assert((val as nat) * 10 + (d as nat) <= max as nat) by {
                assert((val as nat) * 10 <= (max as nat / 10) * 10) by (nonlinear_arith)
                    requires val as nat <= max as nat / 10;
            }
            assert(spec_digits_val(b@, pos as int, cur + 1) == (val as nat) * 10 + (d as nat));
        }
        val = val * 10 + (d as u64);
        cur = cur + 1;
    }
}

/// Scans the decimal byte values of a blob: the executable counterpart
/// of [`spec_scan_byte_items`].
pub fn scan_byte_items_exec(b: &Vec<u8>, pos: usize) -> (r: Option<(Vec<u8>, usize)>)
    ensures
        match r {
            Some((bytes, end)) => spec_scan_byte_items(b@, pos as int) == Some(
                (bytes@, end as int),
            ) && pos < end <= b@.len(),
            None => spec_scan_byte_items(b@, pos as int) is None,
        },
    decreases b@.len() - pos,
{
    if pos >= b.len() {
        return None;
    }
    if b[pos] == RBRACKET {
        let empty: Vec<u8> = Vec::new();
        return Some((empty, pos + 1));
    }
    match scan_num_exec(b, pos, 255) {
        Some((val, e)) => {
            if e >= b.len() {
                None
            } else if b[e] == COMMA {
                match scan_byte_items_exec(b, e + 1) {
                    Some((rest, e2)) => {
                        if rest.len() == 0 {
                            None
                        } else {
                            let ghost rest_view = rest@;
                            let mut out = rest;
                            out.insert(0, val as u8);
                            proof {
                                assert(out@ =~= seq![val as u8] + rest_view);
                            }
                            Some((out, e2))
                        }
                    },
                    None => None,
                }
            } else if b[e] == RBRACKET {
                let mut out: Vec<u8> = Vec::new();
                out.push(val as u8);
                proof {
                    assert(out@ =~= seq![val as u8]);
                }
                Some((out, e + 1))
            } else {
                None
            }
        },
        None => None,
    }
}

/// Decodes one frame at `pos`: the executable counterpart of
/// [`spec_decode`].
pub fn decode_at(b: &Vec<u8>, pos: usize) -> (r: Option<(Bing2BingFrame, usize)>)
    ensures
        match r {
            Some((f, end)) => spec_decode(b@, pos as int) == Some((f@, end as int)) && pos < end
                <= b@.len(),
            None => spec_decode(b@, pos as int) is None,
        },
    decreases b@.len() - pos, 2int,
{
    if pos >= b.len() {
        return None;
    }
    let c = b[pos];
    if c == QUOTE {
        match scan_str_exec(b, pos + 1) {
            Some((content, end)) => {
                let ghost content_view = content@;
                match string_from_utf8(content) {
                    Some(s) => {
                        proof {
                            vstd::utf8::encode_utf8_decode_utf8(s@);
                            vstd::utf8::encode_utf8_valid_utf8(s@);
                        }
                        Some((Bing2BingFrame::Text(s), end))
                    },
                    None => None,
                }
            },
            None => None,
        }
    } else if 48 <= c && c <= 57 {
        match scan_num_exec(b, pos, u64::MAX) {
            Some((val, end)) => Some((Bing2BingFrame::Number(val), end)),
            None => None,
        }
    } else if c == 110 {
        if b.len() - pos >= 4 && b[pos + 1] == 117 && b[pos + 2] == 108 && b[pos + 3] == 108 {
            Some((Bing2BingFrame::Null, pos + 4))
        } else {
            None
        }
    } else if c == LBRACKET {
        match decode_items_at(b, pos + 1) {
            Some((elems, end)) => {
                let result = Bing2BingFrame::Array(elems);
                proof {
                    assert(result@ == FrameV::Array(crate::frame::frames_view(elems)));
                }
                Some((result, end))
            },
            None => None,
        }
    } else if c == LBRACE {
        decode_tagged_at(b, pos)
    } else {
        None
    }
}

/// Decodes the one-key-object forms: the executable counterpart of
/// [`spec_decode_tagged`].
pub fn decode_tagged_at(b: &Vec<u8>, pos: usize) -> (r: Option<(Bing2BingFrame, usize)>)
    ensures
        match r {
            Some((f, end)) => spec_decode_tagged(b@, pos as int) == Some((f@, end as int)) && pos
                < end <= b@.len(),
            None => spec_decode_tagged(b@, pos as int) is None,
        },
    decreases b@.len() - pos, 1int,
{
    if !(pos < b.len() && b.len() - pos >= 5 && b[pos] == LBRACE && b[pos + 1] == QUOTE && b[pos
        + 3] == QUOTE && b[pos + 4] == COLON) {
        return None;
    }
    let key = b[pos + 2];
    if key == 102 {
        match scan_num_exec(b, pos + 5, u64::MAX) {
            Some((val, end)) => {
                if end < b.len() && b[end] == RBRACE {
                    Some((Bing2BingFrame::Float(val), end + 1))
                } else {
                    None
                }
            },
            None => None,
        }
    } else if key == 98 {
        if b.len() - pos >= 6 && b[pos + 5] == LBRACKET {
            match scan_byte_items_exec(b, pos + 6) {
                Some((bytes, end)) => {
                    if end < b.len() && b[end] == RBRACE {
                        Some((Bing2BingFrame::Bulk(bytes), end + 1))
                    } else {
                        None
                    }
                },
                None => None,
            }
        } else {
            None
        }
    } else if key == 108 {
        if b.len() - pos >= 7 && b[pos + 5] == LBRACKET && b[pos + 6] == QUOTE {
            match scan_str_exec(b, pos + 7) {
                Some((content, e1)) => {
                    let ghost content_view = content@;
                    match string_from_utf8(content) {
                        Some(s) => {
                            proof {
                                vstd::utf8::encode_utf8_decode_utf8(s@);
                                vstd::utf8::encode_utf8_valid_utf8(s@);
                            }
                            if e1 < b.len() && b[e1] == COMMA {
                                match scan_num_exec(b, e1 + 1, 4294967295) {
                                    Some((val, e2)) => {
                                        if e2 < b.len() && b.len() - e2 >= 2 && b[e2]
                                            == RBRACKET && b[e2 + 1] == RBRACE {
                                            Some(
                                                (
                                                    Bing2BingFrame::Latency(s, val as u32),
                                                    e2 + 2,
                                                ),
                                            )
                                        } else {
                                            None
                                        }
                                    },
                                    None => None,
                                }
                            } else {
                                None
                            }
                        },
                        None => None,
                    }
                },
                None => None,
            }
        } else {
            None
        }
    } else {
        None
    }
}

/// Decodes array elements up to the closing bracket: the executable
/// counterpart of [`spec_decode_items`].
pub fn decode_items_at(b: &Vec<u8>, pos: usize) -> (r: Option<(Vec<Bing2BingFrame>, usize)>)
    ensures
        match r {
            Some((elems, end)) => spec_decode_items(b@, pos as int) == Some(
                (crate::frame::frames_view(elems), end as int),
            ) && pos < end <= b@.len(),
            None => spec_decode_items(b@, pos as int) is None,
        },
    decreases b@.len() - pos, 3int,
{
    if pos >= b.len() {
        return None;
    }
    if b[pos] == RBRACKET {
        let empty: Vec<Bing2BingFrame> = Vec::new();
        proof {
            crate::frame::lemma_frames_view(empty);
            assert(crate::frame::frames_view(empty) =~= Seq::<FrameV>::empty());
        }
        return Some((empty, pos + 1));
    }
    match decode_at(b, pos) {
        Some((v, e)) => {
            if e >= b.len() {
                None
            } else if b[e] == COMMA {
                match decode_items_at(b, e + 1) {
                    Some((rest, e2)) => {
                        if rest.len() == 0 {
                            proof {
                                crate::frame::lemma_frames_view(rest);
                            }
                            None
                        } else {
                            let ghost rest_view = crate::frame::frames_view(rest);
                            proof {
                                crate::frame::lemma_frames_view(rest);
                            }
                            let mut out = rest;
                            out.insert(0, v);
                            proof {
                                crate::frame::lemma_frames_view(out);
                                assert(crate::frame::frames_view(out) =~= seq![v@] + rest_view);
                            }
                            Some((out, e2))
                        }
                    },
                    None => None,
                }
            } else if b[e] == RBRACKET {
                let mut out: Vec<Bing2BingFrame> = Vec::new();
                let ghost fv = v@;
                out.push(v);
                proof {
                    crate::frame::lemma_frames_view(out);
                    assert(crate::frame::frames_view(out) =~= seq![fv]);
                }
                Some((out, e + 1))
            } else {
                None
            }
        },
        None => None,
    }
}

/// Decodes a complete buffer as one frame; fails when anything but one
/// whole frame is present.
pub fn decode_frame(b: &Vec<u8>) -> (r: Option<Bing2BingFrame>)
    ensures
        match r {
            Some(f) => spec_decode(b@, 0) == Some((f@, b@.len() as int)),
            None => spec_decode(b@, 0) is None || spec_decode(b@, 0)->Some_0.1 != b@.len(),
        },
{
    match decode_at(b, 0) {
        Some((f, end)) => {
            if end == b.len() {
                Some(f)
            } else {
                None
            }
        },
        None => None,
    }
}

} // verus!
