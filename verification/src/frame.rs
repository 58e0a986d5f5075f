//! Framing of network messages: each message travels as a 4-byte
//! little-endian length followed by that many bytes of encoded payload.

use vstd::prelude::*;

use crate::text::{nat_text, usize_string};

verus! {

/// Largest frame either side will send or accept. Real messages are well
/// under 64 KiB; anything bigger is a corrupt or hostile peer.
pub const MAX_MSG_SIZE: usize = 1048576;

/// Why a frame was refused.
#[derive(Clone, Copy, PartialEq, Eq, Debug, Structural)]
pub enum FrameError {
    /// The payload, or the length a header announces, exceeds `MAX_MSG_SIZE`.
    TooLarge(usize),
}

/// The four little-endian bytes of `n`.
pub open spec fn le_bytes(n: nat) -> Seq<u8> {
    seq![(n % 256) as u8, ((n / 256) % 256) as u8, ((n / 65536) % 256) as u8, ((n / 16777216) % 256) as u8]
}

/// The number that four little-endian bytes stand for.
pub open spec fn le_value(b: Seq<u8>) -> nat {
    (b[0] + b[1] * 256 + b[2] * 65536 + b[3] * 16777216) as nat
}

pub open spec fn too_large_text(len: nat) -> Seq<char> {
    "message length "@ + nat_text(len) + " exceeds limit "@ + nat_text(MAX_MSG_SIZE as nat)
}

impl FrameError {
    /// The error's message.
    pub fn text(&self) -> (s: String)
        ensures
            match self {
                FrameError::TooLarge(len) => s@ == too_large_text(*len as nat),
            },
    {
        match self {
            FrameError::TooLarge(len) => {
                let mut s = String::from_str("message length ");
                s.append(usize_string(*len).as_str());
                s.append(" exceeds limit ");
                s.append(usize_string(MAX_MSG_SIZE).as_str());
                s
            },
        }
    }
}

/// Frames a payload: its length as four little-endian bytes, then the
/// payload. A payload over `MAX_MSG_SIZE` is refused.
pub fn encode_frame(payload: &Vec<u8>) -> (r: Result<Vec<u8>, FrameError>)
    ensures
        payload@.len() > MAX_MSG_SIZE <==> r is Err,
        r matches Err(e) ==> e == FrameError::TooLarge(payload@.len() as usize),
        r matches Ok(f) ==> f@ == le_bytes(payload@.len()) + payload@,
{
    let n = payload.len();
    if n > MAX_MSG_SIZE {
        return Err(FrameError::TooLarge(n));
    }
    let mut frame: Vec<u8> = Vec::new();
    frame.push((n % 256) as u8);
    frame.push(((n / 256) % 256) as u8);
    frame.push(((n / 65536) % 256) as u8);
    frame.push(((n / 16777216) % 256) as u8);
    let mut i: usize = 0;
    while i < n
        invariant
            n == payload@.len(),
            n <= MAX_MSG_SIZE,
            i <= n,
            frame@ == le_bytes(n as nat) + payload@.take(i as int),
        decreases n - i,
    {
        frame.push(payload[i]);
        i = i + 1;
        assert(frame@ =~= le_bytes(n as nat) + payload@.take(i as int));
    }
    assert(payload@.take(n as int) =~= payload@);
    Ok(frame)
}

/// The payload length that a frame header announces; a length over
/// `MAX_MSG_SIZE` is refused before anything is read or allocated for it.
pub fn frame_length(header: [u8; 4]) -> (r: Result<usize, FrameError>)
    ensures
        le_value(header@) > MAX_MSG_SIZE <==> r is Err,
        r matches Err(e) ==> e == FrameError::TooLarge(le_value(header@) as usize),
        r matches Ok(n) ==> n == le_value(header@),
{
    let n: u64 = header[0] as u64 + header[1] as u64 * 256 + header[2] as u64 * 65536 + header[3] as u64 * 16777216;
    if n > MAX_MSG_SIZE as u64 {
        return Err(FrameError::TooLarge(n as usize));
    }
    Ok(n as usize)
}

/// Reading a frame's header gives back the length of the payload it was
/// made from.
pub proof fn lemma_header_round_trip(n: nat)
    requires
        n < 4294967296,
    ensures
        le_value(le_bytes(n)) == n,
{
    let b = le_bytes(n);
    assert(b[0] == n % 256);
    assert(b[1] == (n / 256) % 256);
    assert(b[2] == (n / 65536) % 256);
    assert(b[3] == (n / 16777216) % 256);
    assert(n == n % 256 + ((n / 256) % 256) * 256 + ((n / 65536) % 256) * 65536 + ((n / 16777216) % 256) * 16777216) by (nonlinear_arith)
        requires
            0 <= n < 4294967296,
    {
    }
}

/// A payload that could be framed is announced by its header exactly, and
/// the header's length passes the size check.
pub proof fn lemma_framed_length_accepted(payload: Seq<u8>)
    requires
        payload.len() <= MAX_MSG_SIZE,
    ensures
        le_value((le_bytes(payload.len()) + payload).take(4)) == payload.len(),
        le_value((le_bytes(payload.len()) + payload).take(4)) <= MAX_MSG_SIZE,
{
    let f = le_bytes(payload.len()) + payload;
    assert(f.take(4) =~= le_bytes(payload.len()));
    lemma_header_round_trip(payload.len());
}

} // verus!
