use vstd::prelude::*;

use crate::bytes::{be_bytes, be_value, lemma_le_round_trip, push_be, read_be};
use crate::codec::{decode, encode, encodable, encoded, parsed, WorkerRequest};

verus! {

/// Size of the length field that starts every frame.
pub const LENGTH_SIZE: usize = 8;

/// A frame: the payload's length as eight big-endian bytes, then the payload.
pub open spec fn framed(p: Seq<u8>) -> Seq<u8> {
    be_bytes(p.len() as u64) + p
}

/// The length field of the frame starting at `offset`.
pub open spec fn length_at(b: Seq<u8>, offset: int) -> u64 {
    be_value(b.subrange(offset, offset + 8))
}

/// The batch ends at `offset`: the buffer is used up, or a zero length stands there.
pub open spec fn batch_ends(b: Seq<u8>, offset: int) -> bool {
    offset == b.len() || length_at(b, offset) == 0
}

/// Reading at `offset` stays inside `b`: the buffer is used up there, or the length
/// field lies inside it, and so does the payload unless the length is zero.
pub open spec fn frame_fits(b: Seq<u8>, offset: int) -> bool {
    &&& 0 <= offset
    &&& offset == b.len() || {
        &&& offset + 8 <= b.len()
        &&& (length_at(b, offset) == 0 || offset + 8 + length_at(b, offset) <= b.len())
    }
}

/// The payload of the frame at `offset`.
pub open spec fn payload_at(b: Seq<u8>, offset: int) -> Seq<u8> {
    b.subrange(offset + 8, offset + 8 + length_at(b, offset))
}

/// Frames `payload`.
pub fn encode_frame(payload: &[u8]) -> (r: Vec<u8>)
    requires
        payload@.len() <= u64::MAX,
    ensures
        r@ == framed(payload@),
{
    let mut out: Vec<u8> = Vec::new();
    push_be(&mut out, payload.len() as u64);
    out.extend_from_slice(payload);
    out
}

/// The frame that carries `req` to the worker.
pub fn frame_request(req: &WorkerRequest) -> (r: Vec<u8>)
    ensures
        r@ == framed(encoded(req@)),
{
    let payload = encode(req);
    let _len = payload.len();
    encode_frame(payload.as_slice())
}

/// Whether the frame at `offset` can be read from `buf` (see `frame_fits`).
pub fn frame_fits_at(buf: &[u8], offset: usize) -> (r: bool)
    ensures
        r == frame_fits(buf@, offset as int),
{
    let len = buf.len();
    if offset == len {
        return true;
    }
    if offset > len || len - offset < LENGTH_SIZE {
        return false;
    }
    let n = read_be(buf, offset);
    n == 0 || n <= (len - offset - LENGTH_SIZE) as u64
}

/// What the reader finds at an offset of its buffer.
#[derive(Debug)]
pub enum Next {
    /// The buffer is used up, or a zero length stands there: the batch is over.
    End,
    /// A request, and the offset of the frame after it.
    Request(WorkerRequest, usize),
    /// A frame whose payload is not a request, and the offset of the frame after it.
    Invalid(usize),
}

/// Reads the frame at `offset` of `buf`.
pub fn next_request(buf: &[u8], offset: usize) -> (r: Next)
    requires
        frame_fits(buf@, offset as int),
    ensures
        match r {
            Next::End => batch_ends(buf@, offset as int),
            Next::Request(x, next) => {
                &&& !batch_ends(buf@, offset as int)
                &&& next == offset + 8 + length_at(buf@, offset as int)
                &&& parsed(payload_at(buf@, offset as int)) == Some(x@)
            },
            Next::Invalid(next) => {
                &&& !batch_ends(buf@, offset as int)
                &&& next == offset + 8 + length_at(buf@, offset as int)
                &&& parsed(payload_at(buf@, offset as int)) is None
            },
        },
{
    if offset == buf.len() {
        return Next::End;
    }
    let n = read_be(buf, offset);
    if n == 0 {
        return Next::End;
    }
    let start = offset + LENGTH_SIZE;
    let end = start + n as usize;
    match decode(&buf[start..end]) {
        Some(req) => Next::Request(req, end),
        None => Next::Invalid(end),
    }
}

/// What reading from `offset` on finds: the next request, skipping frames that hold
/// none, with the offset after it; the end of the batch; or a frame that overruns `b`.
pub enum Scan {
    Found(crate::codec::WorkerRequestView, int),
    End,
    Overrun,
}

pub open spec fn scan(b: Seq<u8>, offset: int) -> Scan
    decreases b.len() - offset,
{
    if !frame_fits(b, offset) {
        Scan::Overrun
    } else if batch_ends(b, offset) {
        Scan::End
    } else {
        let next = offset + 8 + length_at(b, offset);
        match parsed(payload_at(b, offset)) {
            Some(v) => Scan::Found(v, next),
            None => if next > offset {
                scan(b, next)
            } else {
                Scan::Overrun
            },
        }
    }
}

/// What a reader hands back.
#[derive(Debug)]
pub enum Read {
    /// The next request of the batch.
    Request(WorkerRequest),
    /// The batch is over; the reader starts again at the front of its buffer.
    End,
}

/// A reader's place in the buffer that a batch of frames was read into.
pub struct FrameCursor {
    offset: usize,
}

impl FrameCursor {
    /// A reader at the front of its buffer.
    pub fn new() -> (r: Self)
        ensures
            r.offset() == 0,
    {
        FrameCursor { offset: 0 }
    }

    /// Where the next frame starts.
    pub closed spec fn offset(&self) -> nat {
        self.offset as nat
    }

    /// Whether the rest of the batch in `buf` can be read: no frame before the next
    /// request or the end of the batch runs past the buffer.
    pub fn can_read(&self, buf: &[u8]) -> (r: bool)
        ensures
            r == !(scan(buf@, self.offset() as int) is Overrun),
    {
        let mut offset = self.offset;
        loop
            invariant
                scan(buf@, offset as int) == scan(buf@, self.offset() as int),
            decreases buf@.len() - offset,
        {
            if !frame_fits_at(buf, offset) {
                return false;
            }
            match next_request(buf, offset) {
                Next::Invalid(next) => {
                    offset = next;
                },
                _ => {
                    return true;
                },
            }
        }
    }

    /// Reads the next request of the batch in `buf`, skipping frames that hold none.
    /// At the end of the batch the reader goes back to the front. A frame that runs
    /// past the buffer breaks the framing and may not be read (see `can_read`).
    pub fn next(&mut self, buf: &[u8]) -> (r: Read)
        requires
            !(scan(buf@, old(self).offset() as int) is Overrun),
        ensures
            match scan(buf@, old(self).offset() as int) {
                Scan::Found(v, next) => {
                    &&& r matches Read::Request(x) && x@ == v
                    &&& final(self).offset() == next
                },
                _ => r is End && final(self).offset() == 0,
            },
    {
        let start = self.offset;
        let mut offset = self.offset;
        loop
            invariant
                scan(buf@, offset as int) == scan(buf@, start as int),
                !(scan(buf@, start as int) is Overrun),
                self.offset == start,
                start == old(self).offset,
            decreases buf@.len() - offset,
        {
            match next_request(buf, offset) {
                Next::End => {
                    self.offset = 0;
                    return Read::End;
                },
                Next::Request(req, next) => {
                    self.offset = next;
                    return Read::Request(req);
                },
                Next::Invalid(next) => {
                    offset = next;
                },
            }
        }
    }
}

/// `b` starts with a whole frame.
pub open spec fn starts_with_frame(b: Seq<u8>) -> bool {
    b.len() >= 8 && 8 + length_at(b, 0) <= b.len()
}

/// Where the payload of the frame at the start of `buf` lies, if the whole frame is there.
pub fn payload_range(buf: &[u8]) -> (r: Option<(usize, usize)>)
    ensures
        match r {
            Some((start, end)) => {
                &&& starts_with_frame(buf@)
                &&& start == 8
                &&& end == 8 + length_at(buf@, 0)
            },
            None => !starts_with_frame(buf@),
        },
{
    let len = buf.len();
    if len < LENGTH_SIZE {
        return None;
    }
    let n = read_be(buf, 0);
    if n > (len - LENGTH_SIZE) as u64 {
        return None;
    }
    Some((LENGTH_SIZE, LENGTH_SIZE + n as usize))
}

/// A buffer holding exactly one frame can be read, and gives back the payload whole;
/// a buffer one byte shorter cannot be read.
pub proof fn exact_buffer_reads_frame(p: Seq<u8>)
    requires
        0 < p.len() <= u64::MAX,
    ensures
        frame_fits(framed(p), 0),
        !batch_ends(framed(p), 0),
        length_at(framed(p), 0) == p.len(),
        payload_at(framed(p), 0) == p,
        !frame_fits(framed(p).drop_last(), 0),
        starts_with_frame(framed(p)),
        !starts_with_frame(framed(p).drop_last()),
{
    let b = framed(p);
    lemma_le_round_trip(p.len() as u64);
    assert(b.subrange(0, 8) =~= be_bytes(p.len() as u64));
    assert(b.subrange(8, 8 + p.len() as int) =~= p);
    assert(b.drop_last().subrange(0, 8) =~= be_bytes(p.len() as u64));
}

proof fn lemma_scan_single_frame(p: Seq<u8>)
    requires
        0 < p.len() <= u64::MAX,
        parsed(p) is Some,
    ensures
        scan(framed(p), 0) == Scan::Found(parsed(p)->0, framed(p).len() as int),
        scan(framed(p).drop_last(), 0) == Scan::Overrun,
{
    let b = framed(p);
    exact_buffer_reads_frame(p);
    assert(frame_fits(b, 0) && !batch_ends(b, 0) && payload_at(b, 0) == p);
    assert(b.len() == 8 + p.len());
    assert(scan(b, 0) == Scan::Found(parsed(p)->0, 8 + length_at(b, 0)));
    assert(!frame_fits(b.drop_last(), 0));
}

/// Reading the frame written for a request gives that request back, and leaves the
/// reader just past the frame; the same frame one byte short is an overrun, which
/// the reader may not read.
pub proof fn frame_round_trip(v: crate::codec::WorkerRequestView)
    requires
        encodable(v),
    ensures
        parsed(payload_at(framed(encoded(v)), 0)) == Some(v),
        scan(framed(encoded(v)), 0) == Scan::Found(v, framed(encoded(v)).len() as int),
        scan(framed(encoded(v)).drop_last(), 0) == Scan::Overrun,
{
    let p = encoded(v);
    crate::codec::decode_of_encode(v);
    exact_buffer_reads_frame(p);
    lemma_scan_single_frame(p);
}

} // verus!
