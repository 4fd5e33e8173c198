//! The on-disk layout of one captured packet.
//!
//! A frame is the elapsed time in milliseconds as four big-endian bytes, the
//! payload length as four big-endian bytes, and the payload: the packet's
//! identifier bytes followed by its body bytes.

use crate::error::Error;
use vstd::prelude::*;
use vstd::slice::{slice_subrange, slice_to_vec};

verus! {

/// Largest value that fits the four-byte fields of a frame.
pub const FIELD_MAX: u32 = 0xffff_ffff;

/// Number of bytes in front of a frame's payload.
pub const HEADER_LEN: usize = 8;

/// The four big-endian bytes of `n`, for `0 <= n <= FIELD_MAX`.
pub open spec fn be32(n: int) -> Seq<u8> {
    seq![
        ((n / 0x100_0000) % 0x100) as u8,
        ((n / 0x1_0000) % 0x100) as u8,
        ((n / 0x100) % 0x100) as u8,
        (n % 0x100) as u8,
    ]
}

/// The number that four big-endian bytes stand for.
pub open spec fn be32_value(bytes: Seq<u8>) -> int
    recommends
        bytes.len() == 4,
{
    bytes[0] as int * 0x100_0000 + bytes[1] as int * 0x1_0000 + bytes[2] as int * 0x100
        + bytes[3] as int
}

/// What one frame holds: when the packet arrived and its bytes.
pub ghost struct FrameView {
    pub elapsed_ms: int,
    pub payload: Seq<u8>,
}

impl FrameView {
    /// Both header fields fit in 32 bits.
    pub open spec fn fits(self) -> bool {
        0 <= self.elapsed_ms <= FIELD_MAX && self.payload.len() <= FIELD_MAX
    }

    /// The bytes of this frame.
    pub open spec fn bytes(self) -> Seq<u8> {
        be32(self.elapsed_ms) + be32(self.payload.len() as int) + self.payload
    }
}

/// Appends the big-endian bytes of `n`.
fn push_be32(out: &mut Vec<u8>, n: u32)
    ensures
        final(out)@ == old(out)@ + be32(n as int),
{
    out.push((n / 0x100_0000) as u8);
    out.push(((n / 0x1_0000) % 0x100) as u8);
    out.push(((n / 0x100) % 0x100) as u8);
    out.push((n % 0x100) as u8);
    assert(final(out)@ =~= old(out)@ + be32(n as int));
}

/// Frames one packet.
///
/// Succeeds exactly when the elapsed time and the combined length of
/// identifier and body each fit in 32 bits; neither is ever truncated.
pub fn encode(elapsed_ms: u128, identifier: &[u8], body: &[u8]) -> (framed: Result<Vec<u8>, Error>)
    ensures
        framed is Ok <==> elapsed_ms <= FIELD_MAX && identifier@.len() + body@.len() <= FIELD_MAX,
        framed is Ok ==> framed->Ok_0@ == (FrameView {
            elapsed_ms: elapsed_ms as int,
            payload: identifier@ + body@,
        }).bytes(),
        framed is Err ==> framed->Err_0 == Error::SizeOverflow,
{
    let length: u128 = identifier.len() as u128 + body.len() as u128;
    if elapsed_ms > FIELD_MAX as u128 || length > FIELD_MAX as u128 {
        return Err(Error::SizeOverflow);
    }
    let mut out: Vec<u8> = Vec::new();
    push_be32(&mut out, elapsed_ms as u32);
    push_be32(&mut out, length as u32);
    out.extend_from_slice(identifier);
    out.extend_from_slice(body);
    assert(out@ =~= (FrameView {
        elapsed_ms: elapsed_ms as int,
        payload: identifier@ + body@,
    }).bytes());
    Ok(out)
}

/// The bytes of a packet stream: its frames one after another.
pub open spec fn stream_bytes(frames: Seq<FrameView>) -> Seq<u8>
    decreases frames.len(),
{
    if frames.len() == 0 {
        Seq::empty()
    } else {
        stream_bytes(frames.drop_last()) + frames.last().bytes()
    }
}

/// Every frame of the sequence fits its header fields.
pub open spec fn all_fit(frames: Seq<FrameView>) -> bool {
    forall|i: int| 0 <= i < frames.len() ==> (#[trigger] frames[i]).fits()
}

/// The frames that a packet stream holds, read from the front; `None` where
/// the bytes end inside a frame.
pub open spec fn parse_stream(bytes: Seq<u8>) -> Option<Seq<FrameView>>
    decreases bytes.len(),
{
    if bytes.len() == 0 {
        Some(Seq::empty())
    } else if bytes.len() < HEADER_LEN {
        None
    } else {
        let length = be32_value(bytes.subrange(4, 8));
        if bytes.len() < HEADER_LEN + length {
            None
        } else {
            match parse_stream(bytes.subrange(HEADER_LEN + length, bytes.len() as int)) {
                Some(rest) => Some(
                    seq![
                        FrameView {
                            elapsed_ms: be32_value(bytes.subrange(0, 4)),
                            payload: bytes.subrange(HEADER_LEN as int, HEADER_LEN + length),
                        },
                    ] + rest,
                ),
                None => None,
            }
        }
    }
}

/// One decoded frame.
#[derive(Clone, Debug, PartialEq, Eq)]
pub struct Frame {
    /// Milliseconds between the start of the session and the packet.
    pub elapsed_ms: u32,
    /// Identifier bytes followed by body bytes.
    pub payload: Vec<u8>,
}

impl View for Frame {
    type V = FrameView;

    open spec fn view(&self) -> FrameView {
        FrameView { elapsed_ms: self.elapsed_ms as int, payload: self.payload@ }
    }
}

/// The views of a vector of frames.
pub open spec fn frame_views(frames: Seq<Frame>) -> Seq<FrameView> {
    frames.map_values(|f: Frame| f@)
}

/// Reading back the four bytes of a number gives the number.
pub proof fn lemma_be32_round_trip(n: int)
    requires
        0 <= n <= FIELD_MAX,
    ensures
        be32(n).len() == 4,
        be32_value(be32(n)) == n,
{
}

/// The value of four bytes fits in 32 bits.
pub proof fn lemma_be32_value_bounds(bytes: Seq<u8>)
    requires
        bytes.len() == 4,
    ensures
        0 <= be32_value(bytes) <= FIELD_MAX,
        be32(be32_value(bytes)) == bytes,
{
    let b0 = bytes[0] as int;
    let b1 = bytes[1] as int;
    let b2 = bytes[2] as int;
    let b3 = bytes[3] as int;
    let n = be32_value(bytes);
    assert(n == b0 * 0x100_0000 + b1 * 0x1_0000 + b2 * 0x100 + b3);
    assert(n % 0x100 == b3);
    assert(n / 0x100 == b0 * 0x1_0000 + b1 * 0x100 + b2);
    assert((n / 0x100) % 0x100 == b2);
    assert(n / 0x1_0000 == b0 * 0x100 + b1);
    assert((n / 0x1_0000) % 0x100 == b1);
    assert(n / 0x100_0000 == b0);
    assert(be32(n) =~= bytes);
}

/// A stream that starts with a whole frame parses to that frame and the parse
/// of what follows it.
pub proof fn lemma_parse_first(frame: FrameView, rest: Seq<u8>)
    requires
        frame.fits(),
    ensures
        parse_stream(frame.bytes() + rest) == match parse_stream(rest) {
            Some(frames) => Some(seq![frame] + frames),
            None => None,
        },
{
    let bytes = frame.bytes() + rest;
    let length = frame.payload.len() as int;
    lemma_be32_round_trip(frame.elapsed_ms);
    lemma_be32_round_trip(length);
    assert(bytes.subrange(0, 4) =~= be32(frame.elapsed_ms));
    assert(bytes.subrange(4, 8) =~= be32(length));
    assert(bytes.subrange(HEADER_LEN as int, HEADER_LEN + length) =~= frame.payload);
    assert(bytes.subrange(HEADER_LEN + length, bytes.len() as int) =~= rest);
}

/// Appending one more frame to a stream that parses adds that frame to the
/// end of what it parses to.
pub proof fn lemma_parse_append(bytes: Seq<u8>, frame: FrameView)
    requires
        parse_stream(bytes) is Some,
        frame.fits(),
    ensures
        parse_stream(bytes + frame.bytes()) == Some(parse_stream(bytes)->Some_0.push(frame)),
    decreases bytes.len(),
{
    if bytes.len() == 0 {
        assert(bytes + frame.bytes() =~= frame.bytes() + Seq::<u8>::empty());
        lemma_parse_first(frame, Seq::empty());
        assert(seq![frame] + Seq::<FrameView>::empty() =~= Seq::<FrameView>::empty().push(frame));
    } else {
        let length = be32_value(bytes.subrange(4, 8));
        lemma_be32_value_bounds(bytes.subrange(4, 8));
        let tail = bytes.subrange(HEADER_LEN + length, bytes.len() as int);
        let head = FrameView {
            elapsed_ms: be32_value(bytes.subrange(0, 4)),
            payload: bytes.subrange(HEADER_LEN as int, HEADER_LEN + length),
        };
        lemma_parse_append(tail, frame);
        let whole = bytes + frame.bytes();
        assert(whole.subrange(0, 4) =~= bytes.subrange(0, 4));
        assert(whole.subrange(4, 8) =~= bytes.subrange(4, 8));
        assert(whole.subrange(HEADER_LEN as int, HEADER_LEN + length) =~= head.payload);
        assert(whole.subrange(HEADER_LEN + length, whole.len() as int) =~= tail + frame.bytes());
        let rest = parse_stream(tail)->Some_0;
        assert(seq![head] + rest.push(frame) =~= (seq![head] + rest).push(frame));
    }
}

/// The stream of frames that fit parses, and parses to those frames: what is
/// framed can be read back exactly.
pub proof fn lemma_stream_round_trip(frames: Seq<FrameView>)
    requires
        all_fit(frames),
    ensures
        parse_stream(stream_bytes(frames)) == Some(frames),
    decreases frames.len(),
{
    if frames.len() > 0 {
        lemma_stream_round_trip(frames.drop_last());
        lemma_parse_append(stream_bytes(frames.drop_last()), frames.last());
        assert(frames.drop_last().push(frames.last()) =~= frames);
    }
}

/// Every frame that a stream parses to fits its header fields, and framing
/// them again gives the stream back.
pub proof fn lemma_parse_round_trip(bytes: Seq<u8>)
    requires
        parse_stream(bytes) is Some,
    ensures
        all_fit(parse_stream(bytes)->Some_0),
        stream_bytes(parse_stream(bytes)->Some_0) == bytes,
    decreases bytes.len(),
{
    if bytes.len() > 0 {
        let length = be32_value(bytes.subrange(4, 8));
        lemma_be32_value_bounds(bytes.subrange(4, 8));
        lemma_be32_value_bounds(bytes.subrange(0, 4));
        let tail = bytes.subrange(HEADER_LEN + length, bytes.len() as int);
        let head = FrameView {
            elapsed_ms: be32_value(bytes.subrange(0, 4)),
            payload: bytes.subrange(HEADER_LEN as int, HEADER_LEN + length),
        };
        lemma_parse_round_trip(tail);
        let rest = parse_stream(tail)->Some_0;
        assert(head.bytes() + tail =~= bytes);
        lemma_stream_prepend(head, rest);
    }
}

/// The stream of a frame followed by others is that frame's bytes followed by
/// the stream of the others.
pub proof fn lemma_stream_prepend(frame: FrameView, rest: Seq<FrameView>)
    ensures
        stream_bytes(seq![frame] + rest) == frame.bytes() + stream_bytes(rest),
    decreases rest.len(),
{
    let all = seq![frame] + rest;
    if rest.len() == 0 {
        assert(all.drop_last() =~= Seq::<FrameView>::empty());
        assert(all.last() == frame);
        assert(stream_bytes(all.drop_last()) =~= Seq::<u8>::empty());
        assert(stream_bytes(rest) =~= Seq::<u8>::empty());
        assert(stream_bytes(all) =~= frame.bytes() + stream_bytes(rest));
    } else {
        lemma_stream_prepend(frame, rest.drop_last());
        assert(all.drop_last() =~= seq![frame] + rest.drop_last());
        assert(all.last() == rest.last());
        assert(stream_bytes(all) =~= frame.bytes() + stream_bytes(rest));
    }
}

/// Reads four big-endian bytes.
fn read_be32(bytes: &[u8], at: usize) -> (n: u32)
    requires
        at + 4 <= bytes@.len(),
    ensures
        n as int == be32_value(bytes@.subrange(at as int, at + 4)),
{
    let b0: u32 = bytes[at] as u32;
    let b1: u32 = bytes[at + 1] as u32;
    let b2: u32 = bytes[at + 2] as u32;
    let b3: u32 = bytes[at + 3] as u32;
    b0 * 0x100_0000 + b1 * 0x1_0000 + b2 * 0x100 + b3
}

/// Reads a packet stream back into its frames.
///
/// Returns `None` exactly where the bytes end inside a frame.
pub fn decode_stream(bytes: &[u8]) -> (decoded: Option<Vec<Frame>>)
    ensures
        decoded is Some <==> parse_stream(bytes@) is Some,
        decoded is Some ==> frame_views(decoded->Some_0@) == parse_stream(bytes@)->Some_0,
{
    let mut frames: Vec<Frame> = Vec::new();
    let mut at: usize = 0;
    proof {
        assert(bytes@.subrange(0, bytes@.len() as int) =~= bytes@);
        if parse_stream(bytes@) is Some {
            assert(frame_views(frames@) + parse_stream(bytes@)->Some_0 =~= parse_stream(
                bytes@,
            )->Some_0);
        }
    }
    while at < bytes.len()
        invariant
            at <= bytes@.len(),
            parse_stream(bytes@) == match parse_stream(
                bytes@.subrange(at as int, bytes@.len() as int),
            ) {
                Some(rest) => Some(frame_views(frames@) + rest),
                None => None,
            },
        decreases bytes@.len() - at,
    {
        let ghost suffix = bytes@.subrange(at as int, bytes@.len() as int);
        if bytes.len() - at < HEADER_LEN {
            return None;
        }
        let elapsed_ms = read_be32(bytes, at);
        let length = read_be32(bytes, at + 4);
        assert(suffix.subrange(0, 4) =~= bytes@.subrange(at as int, at + 4));
        assert(suffix.subrange(4, 8) =~= bytes@.subrange(at + 4, at + 8));
        if bytes.len() - at - HEADER_LEN < length as usize {
            return None;
        }
        let start: usize = at + HEADER_LEN;
        let end: usize = start + length as usize;
        let payload = slice_to_vec(slice_subrange(bytes, start, end));
        assert(payload@ =~= suffix.subrange(HEADER_LEN as int, HEADER_LEN + length));
        assert(suffix.subrange(HEADER_LEN + length, suffix.len() as int) =~= bytes@.subrange(
            end as int,
            bytes@.len() as int,
        ));
        let frame = Frame { elapsed_ms, payload };
        proof {
            let rest = parse_stream(bytes@.subrange(end as int, bytes@.len() as int));
            if rest is Some {
                assert(frame_views(frames@) + (seq![frame@] + rest->Some_0) =~= frame_views(
                    frames@.push(frame),
                ) + rest->Some_0);
            }
        }
        frames.push(frame);
        at = end;
    }
    assert(bytes@.subrange(at as int, bytes@.len() as int) =~= Seq::<u8>::empty());
    assert(frame_views(frames@) + Seq::<FrameView>::empty() =~= frame_views(frames@));
    Some(frames)
}

} // verus!
