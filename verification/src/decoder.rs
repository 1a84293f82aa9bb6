//! Per-connection frame decoding: a growable byte buffer from which
//! length-prefixed frames are extracted, decompressed once compression has
//! been armed, and split into packet id and body.

use crate::codec::{zlib_decompress, zlib_inflate_of};
use crate::varint::{
    lemma_varint_read_bounds, lemma_varint_read_extend, read_varint, varint_read, VarIntRead,
};
use crate::MAX_PACKET_SIZE;
use vstd::prelude::*;
use vstd::slice::{slice_subrange, slice_to_vec};

verus! {

/// One extracted frame: packet id and body bytes.
pub struct Frame {
    pub id: u32,
    pub body: Vec<u8>,
}

/// Why a frame could not be extracted: the framing is broken, or a declared
/// length exceeds the maximum packet size. Either is fatal for the session.
#[derive(Clone, Copy, PartialEq, Eq, Structural, Debug)]
pub enum DecodeError {
    Malformed,
    Oversize,
}

/// Outcome of parsing one frame from the front of a stream.
pub enum FrameStep {
    /// The buffer holds no complete frame yet.
    Incomplete,
    /// The framing is broken; no further byte can repair it.
    Malformed,
    /// A frame is ready; `consumed` bytes of the stream carried it.
    Ready { id: u32, body: Seq<u8>, consumed: int },
}

/// The payload a raw frame carries once compression is armed: either stored
/// verbatim after a zero marker, or a zlib stream with its declared length.
pub open spec fn parse_payload(raw: Seq<u8>, armed: bool) -> Option<Seq<u8>> {
    if !armed {
        Some(raw)
    } else {
        match varint_read(raw) {
            VarIntRead::Value { value: dlen, len: l2 } => {
                if dlen == 0 {
                    Some(raw.skip(l2 as int))
                } else if dlen > MAX_PACKET_SIZE as u32 {
                    None
                } else {
                    match zlib_inflate_of(raw.skip(l2 as int)) {
                        Some(d) => {
                            if d.len() == dlen {
                                Some(d)
                            } else {
                                None
                            }
                        },
                        None => None,
                    }
                }
            },
            _ => None,
        }
    }
}

/// Parses one frame from the front of `s`: a length prefix, the raw frame
/// bytes, optional decompression, then the packet id.
pub open spec fn parse_frame(s: Seq<u8>, armed: bool) -> FrameStep {
    match varint_read(s) {
        VarIntRead::Incomplete => FrameStep::Incomplete,
        VarIntRead::Malformed => FrameStep::Malformed,
        VarIntRead::Value { value: flen, len: l1 } => {
            if flen > MAX_PACKET_SIZE as u32 {
                FrameStep::Malformed
            } else if s.len() < l1 + flen {
                FrameStep::Incomplete
            } else {
                let raw = s.subrange(l1 as int, l1 as int + flen as int);
                match parse_payload(raw, armed) {
                    None => FrameStep::Malformed,
                    Some(payload) => match varint_read(payload) {
                        VarIntRead::Value { value: id, len: l3 } => FrameStep::Ready {
                            id,
                            body: payload.skip(l3 as int),
                            consumed: l1 + flen,
                        },
                        _ => FrameStep::Malformed,
                    },
                }
            }
        },
    }
}

/// A ready frame consumed at least one byte and no more than the stream
/// holds.
pub proof fn lemma_parse_frame_consumed(s: Seq<u8>, armed: bool)
    ensures
        parse_frame(s, armed) matches FrameStep::Ready { consumed, .. } ==> 1 <= consumed
            <= s.len(),
{
    lemma_varint_read_bounds(s);
}

/// Parsing is stable under appended input: a ready or malformed verdict on
/// `s` stands unchanged on `s + t`.
pub proof fn lemma_parse_frame_extend(s: Seq<u8>, t: Seq<u8>, armed: bool)
    requires
        !(parse_frame(s, armed) is Incomplete),
    ensures
        parse_frame(s + t, armed) == parse_frame(s, armed),
{
    lemma_varint_read_bounds(s);
    lemma_varint_read_extend(s, t);
    match varint_read(s) {
        VarIntRead::Value { value: flen, len: l1 } => {
            if flen <= MAX_PACKET_SIZE as u32 && s.len() >= l1 + flen {
                assert((s + t).subrange(l1 as int, l1 as int + flen as int) =~= s.subrange(
                    l1 as int,
                    l1 as int + flen as int,
                ));
            }
        },
        _ => {},
    }
}

/// The sequence of frames the front of `s` yields, in stream order.
pub open spec fn frames_of(s: Seq<u8>, armed: bool) -> Seq<(u32, Seq<u8>)>
    decreases s.len(),
{
    match parse_frame(s, armed) {
        FrameStep::Ready { id, body, consumed } => {
            if 1 <= consumed <= s.len() {
                seq![(id, body)] + frames_of(s.skip(consumed), armed)
            } else {
                Seq::empty()
            }
        },
        _ => Seq::empty(),
    }
}

/// Per-connection ordering: the frames a byte stream yields are a prefix of
/// the frames any extension of it yields, in the same order. Bytes appended
/// by the proxy never reorder or reshape the frames already delivered.
pub proof fn lemma_frames_prefix_stable(s: Seq<u8>, t: Seq<u8>, armed: bool)
    ensures
        frames_of(s, armed).is_prefix_of(frames_of(s + t, armed)),
    decreases s.len(),
{
    lemma_parse_frame_consumed(s, armed);
    match parse_frame(s, armed) {
        FrameStep::Ready { id, body, consumed } => {
            lemma_parse_frame_extend(s, t, armed);
            assert(s.skip(consumed) + t =~= (s + t).skip(consumed));
            lemma_frames_prefix_stable(s.skip(consumed), t, armed);
        },
        FrameStep::Malformed => {
            assert(frames_of(s, armed) =~= Seq::<(u32, Seq<u8>)>::empty());
        },
        FrameStep::Incomplete => {
            assert(frames_of(s, armed) =~= Seq::<(u32, Seq<u8>)>::empty());
        },
    }
}

/// Per-connection byte buffer and compression switch.
pub struct FrameDecoder {
    buf: Vec<u8>,
    cursor: usize,
    compression: Option<i32>,
}

impl FrameDecoder {
    /// The buffer is consistent: the read cursor lies within it.
    pub closed spec fn wf(&self) -> bool {
        self.cursor <= self.buf@.len()
    }

    /// The bytes not yet consumed by frame extraction.
    pub closed spec fn remaining(&self) -> Seq<u8> {
        self.buf@.skip(self.cursor as int)
    }

    /// Whether compression has been armed.
    pub closed spec fn armed(&self) -> bool {
        self.compression is Some
    }

    /// The armed compression threshold.
    pub closed spec fn threshold(&self) -> Option<i32> {
        self.compression
    }

    /// A fresh decoder: empty buffer, compression not armed.
    pub fn new() -> (r: FrameDecoder)
        ensures
            r.wf(),
            r.remaining() == Seq::<u8>::empty(),
            !r.armed(),
    {
        let r = FrameDecoder { buf: Vec::new(), cursor: 0, compression: None };
        proof {
            assert(r.remaining() =~= Seq::<u8>::empty());
        }
        r
    }

    /// Appends bytes delivered by the proxy.
    pub fn queue_slice(&mut self, bytes: &[u8])
        requires
            old(self).wf(),
        ensures
            final(self).wf(),
            final(self).remaining() == old(self).remaining() + bytes@,
            final(self).threshold() == old(self).threshold(),
            final(self).armed() == old(self).armed(),
    {
        let mut i: usize = 0;
        while i < bytes.len()
            invariant
                old(self).wf(),
                i <= bytes@.len(),
                self.cursor == old(self).cursor,
                self.compression == old(self).compression,
                self.buf@ == old(self).buf@ + bytes@.take(i as int),
            decreases bytes@.len() - i,
        {
            self.buf.push(bytes[i]);
            assert(self.buf@ =~= old(self).buf@ + bytes@.take(i + 1));
            i = i + 1;
        }
        proof {
            assert(bytes@.take(bytes@.len() as int) =~= bytes@);
            assert(self.buf@.skip(self.cursor as int) =~= old(self).remaining() + bytes@);
        }
    }

    /// Compacts the buffer, reclaiming the consumed prefix.
    pub fn shift_excess(&mut self)
        requires
            old(self).wf(),
        ensures
            final(self).wf(),
            final(self).remaining() == old(self).remaining(),
            final(self).threshold() == old(self).threshold(),
            final(self).armed() == old(self).armed(),
    {
        if self.cursor == 0 {
            return ;
        }
        let rest = slice_to_vec(slice_subrange(self.buf.as_slice(), self.cursor, self.buf.len()));
        assert(rest@ =~= old(self).remaining());
        self.buf = rest;
        self.cursor = 0;
        proof {
            assert(self.remaining() =~= self.buf@);
        }
    }

    /// Arms compression. Legal exactly once per connection, at the moment the
    /// compression notice is sent; it is never disarmed afterwards.
    pub fn set_compression(&mut self, threshold: i32)
        requires
            old(self).wf(),
            !old(self).armed(),
            threshold >= 0,
        ensures
            final(self).wf(),
            final(self).remaining() == old(self).remaining(),
            final(self).threshold() == Some(threshold),
            final(self).armed(),
    {
        self.compression = Some(threshold);
    }

    /// Attempts to extract one frame.
    ///
    /// Follows the parse of the unconsumed bytes exactly: `Ok(None)` when no
    /// complete frame is present (the buffer is left as it is), an error when
    /// the framing is broken, and `Ok(Some(frame))` otherwise, consuming
    /// exactly the frame's bytes.
    #[verifier::rlimit(100)]
    #[verifier::loop_isolation(false)]
    pub fn try_next(&mut self) -> (r: Result<Option<Frame>, DecodeError>)
        requires
            old(self).wf(),
        ensures
            final(self).wf(),
            final(self).threshold() == old(self).threshold(),
            final(self).armed() == old(self).armed(),
            match parse_frame(old(self).remaining(), old(self).armed()) {
                FrameStep::Incomplete => r == Ok::<Option<Frame>, DecodeError>(None)
                    && final(self).remaining() == old(self).remaining(),
                FrameStep::Malformed => r is Err,
                FrameStep::Ready { id, body, consumed } => match r {
                    Ok(Some(f)) => f.id == id && f.body@ == body && final(self).remaining()
                        == old(self).remaining().skip(consumed),
                    _ => false,
                },
            },
    {
        let ghost rem = old(self).remaining();
        let ghost armed_before = old(self).armed();
        let (flen, l1) = match read_varint(self.buf.as_slice(), self.cursor) {
            VarIntRead::Incomplete => {
                return Ok(None);
            },
            VarIntRead::Malformed => {
                return Err(DecodeError::Malformed);
            },
            VarIntRead::Value { value, len } => (value, len),
        };
        if flen > MAX_PACKET_SIZE as u32 {
            return Err(DecodeError::Oversize);
        }
        let avail = self.buf.len() - self.cursor;
        if avail - l1 < flen as usize {
            assert(rem.len() < l1 + flen);
            return Ok(None);
        }
        let start = self.cursor + l1;
        let end = start + flen as usize;
        let raw = slice_subrange(self.buf.as_slice(), start, end);
        let ghost raw_spec = rem.subrange(l1 as int, l1 as int + flen as int);
        assert(raw@ =~= raw_spec);
        let payload: Vec<u8> = if self.compression.is_none() {
            slice_to_vec(raw)
        } else {
            let (dlen, l2) = match read_varint(raw, 0) {
                VarIntRead::Value { value, len } => (value, len),
                _ => {
                    proof {
                        assert(raw@.skip(0) =~= raw@);
                    }
                    return Err(DecodeError::Malformed);
                },
            };
            proof {
                assert(raw@.skip(0) =~= raw@);
            }
            let data = slice_subrange(raw, l2, flen as usize);
            assert(data@ =~= raw_spec.skip(l2 as int));
            if dlen == 0 {
                slice_to_vec(data)
            } else if dlen > MAX_PACKET_SIZE as u32 {
                return Err(DecodeError::Oversize);
            } else {
                match zlib_decompress(data, dlen as usize) {
                    Some(v) => v,
                    None => {
                        return Err(DecodeError::Malformed);
                    },
                }
            }
        };
        assert(parse_payload(raw_spec, armed_before) == Some(payload@));
        let (id, l3) = match read_varint(payload.as_slice(), 0) {
            VarIntRead::Value { value, len } => (value, len),
            _ => {
                proof {
                    assert(payload@.skip(0) =~= payload@);
                }
                return Err(DecodeError::Malformed);
            },
        };
        proof {
            assert(payload@.skip(0) =~= payload@);
        }
        let body = slice_to_vec(slice_subrange(payload.as_slice(), l3, payload.len()));
        assert(body@ =~= payload@.skip(l3 as int));
        self.cursor = end;
        proof {
            assert(self.remaining() =~= rem.skip(l1 as int + flen as int));
        }
        Ok(Some(Frame { id, body }))
    }
}

} // verus!
