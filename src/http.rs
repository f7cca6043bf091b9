use vstd::prelude::*;
use vstd::string::StringSliceAdditionalSpecFns;

use crate::summary::{digits, push_decimal, push_str};

verus! {

/// ASCII `G`, first byte of a `GET`.
pub const GET_BYTE: u8 = 71;

/// ASCII `P`, first byte of a `POST`.
pub const POST_BYTE: u8 = 80;

/// ASCII `a`, eighth byte of `POST /payments`.
pub const PAYMENTS_BYTE: u8 = 97;

/// ASCII `u`, eighth byte of `POST /purge-payments`.
pub const PURGE_BYTE: u8 = 117;

/// ASCII `{`.
pub const OPEN_BRACE: u8 = 123;

/// ASCII `}`.
pub const CLOSE_BRACE: u8 = 125;

/// Number of buffers in the load balancer's pool.
pub const BUFFER_POOL_SIZE: usize = 1024;

/// Size of each pooled buffer.
pub const BUFFER_SIZE: usize = 512;

/// The requests an API instance serves, told apart by their first and eighth bytes.
#[derive(Clone, Copy, Debug, PartialEq, Eq, Structural)]
pub enum Route {
    /// `GET /payments-summary?...`
    Summary,
    /// `POST /payments`
    Payment,
    /// `POST /purge-payments`
    Purge,
    /// Anything else: logged and dropped.
    Invalid,
}

/// Which request the bytes `b` start.
pub open spec fn route_of(b: Seq<u8>) -> Route {
    if b.len() >= 1 && b[0] == GET_BYTE {
        Route::Summary
    } else if b.len() >= 8 && b[0] == POST_BYTE && b[7] == PAYMENTS_BYTE {
        Route::Payment
    } else if b.len() >= 8 && b[0] == POST_BYTE && b[7] == PURGE_BYTE {
        Route::Purge
    } else {
        Route::Invalid
    }
}

/// Tells which request `buf` holds.
pub fn route(buf: &[u8]) -> (r: Route)
    ensures
        r == route_of(buf@),
{
    let len = buf.len();
    if len >= 1 && buf[0] == GET_BYTE {
        Route::Summary
    } else if len >= 8 && buf[0] == POST_BYTE && buf[7] == PAYMENTS_BYTE {
        Route::Payment
    } else if len >= 8 && buf[0] == POST_BYTE && buf[7] == PURGE_BYTE {
        Route::Purge
    } else {
        Route::Invalid
    }
}

/// What the load balancer does with a request, by its first byte.
#[derive(Clone, Copy, Debug, PartialEq, Eq, Structural)]
pub enum Dispatch {
    /// A `GET`: forward it, wait for the reply and stream it back.
    Forward,
    /// A `POST`: acknowledge at once, then forward it.
    AcknowledgeThenForward,
    /// Anything else: logged and dropped.
    Drop,
}

pub open spec fn dispatch_of(b: Seq<u8>) -> Dispatch {
    if b.len() >= 1 && b[0] == GET_BYTE {
        Dispatch::Forward
    } else if b.len() >= 1 && b[0] == POST_BYTE {
        Dispatch::AcknowledgeThenForward
    } else {
        Dispatch::Drop
    }
}

/// Tells the load balancer what to do with the request `buf`.
pub fn dispatch(buf: &[u8]) -> (r: Dispatch)
    ensures
        r == dispatch_of(buf@),
{
    if buf.len() >= 1 && buf[0] == GET_BYTE {
        Dispatch::Forward
    } else if buf.len() >= 1 && buf[0] == POST_BYTE {
        Dispatch::AcknowledgeThenForward
    } else {
        Dispatch::Drop
    }
}

/// The API instance that serves the `counter`-th connection, round robin.
pub fn pick_backend(counter: usize, backends: usize) -> (r: usize)
    requires
        backends > 0,
    ensures
        r == counter % backends,
        r < backends,
{
    counter % backends
}

/// The pooled buffer that the `counter`-th connection checks out.
pub fn buffer_index(counter: usize) -> (r: usize)
    ensures
        r == counter % BUFFER_POOL_SIZE,
        r < BUFFER_POOL_SIZE,
{
    counter % BUFFER_POOL_SIZE
}

/// The reply to a write: `200 OK` with an empty body.
pub fn ok_response() -> (r: Vec<u8>)
    ensures
        r@ == "HTTP/1.1 200 OK\r\nContent-Length: 0\r\n\r\n".spec_bytes(),
{
    let mut out: Vec<u8> = Vec::new();
    push_str(&mut out, "HTTP/1.1 200 OK\r\nContent-Length: 0\r\n\r\n");
    out
}

/// The status line and headers of a `200 OK` whose body is `body_len` bytes long.
pub fn response_head(body_len: u64) -> (r: Vec<u8>)
    ensures
        r@ == "HTTP/1.1 200 OK\r\nContent-Length: ".spec_bytes() + digits(body_len as nat)
            + "\r\n\r\n".spec_bytes(),
{
    let mut out: Vec<u8> = Vec::new();
    push_str(&mut out, "HTTP/1.1 200 OK\r\nContent-Length: ");
    push_decimal(&mut out, body_len);
    push_str(&mut out, "\r\n\r\n");
    out
}

/// The JSON body of a `POST`: from the first `{` to the last `}`, both included.
/// `None` when either is missing or the last `}` comes before the first `{`.
pub fn json_body(buf: &[u8]) -> (r: Option<(usize, usize)>)
    ensures
        match r {
            Some((start, end)) => {
                &&& start <= end < buf@.len()
                &&& buf@[start as int] == OPEN_BRACE
                &&& buf@[end as int] == CLOSE_BRACE
                &&& forall|i: int| 0 <= i < start ==> buf@[i] != OPEN_BRACE
                &&& forall|i: int| end < i < buf@.len() ==> buf@[i] != CLOSE_BRACE
            },
            None => {
                ||| forall|i: int| 0 <= i < buf@.len() ==> buf@[i] != OPEN_BRACE
                ||| forall|i: int| 0 <= i < buf@.len() ==> buf@[i] != CLOSE_BRACE
                ||| exists|s: int, e: int|
                    {
                        &&& 0 <= e < s < buf@.len()
                        &&& buf@[s] == OPEN_BRACE
                        &&& buf@[e] == CLOSE_BRACE
                        &&& forall|i: int| 0 <= i < s ==> buf@[i] != OPEN_BRACE
                        &&& forall|i: int| e < i < buf@.len() ==> buf@[i] != CLOSE_BRACE
                    }
            },
        },
{
    let len = buf.len();
    let mut start: usize = 0;
    while start < len && buf[start] != OPEN_BRACE
        invariant
            start <= len == buf@.len(),
            forall|i: int| 0 <= i < start ==> buf@[i] != OPEN_BRACE,
        decreases len - start,
    {
        start = start + 1;
    }
    if start == len {
        return None;
    }
    let mut end: usize = len;
    while end > 0 && buf[end - 1] != CLOSE_BRACE
        invariant
            end <= len == buf@.len(),
            forall|i: int| end <= i < len ==> buf@[i] != CLOSE_BRACE,
        decreases end,
    {
        end = end - 1;
    }
    if end == 0 {
        return None;
    }
    let end = end - 1;
    if end < start {
        assert(buf@[start as int] == OPEN_BRACE && buf@[end as int] == CLOSE_BRACE);
        return None;
    }
    Some((start, end))
}

} // verus!
