//! Frames on a byte stream: a length of four bytes, then that many bytes.

use crate::text::{decimal, decimal_text, joined3};
use vstd::prelude::*;

verus! {

/// The largest payload that is accepted.
pub const MAX_FRAME: usize = 16777216;

/// A number in four bytes, the highest first.
pub open spec fn be_bytes(n: nat) -> Seq<u8> {
    seq![
        (n / 16777216 % 256) as u8,
        (n / 65536 % 256) as u8,
        (n / 256 % 256) as u8,
        (n % 256) as u8,
    ]
}

/// The number in four bytes.
pub open spec fn be_number(b: Seq<u8>) -> nat {
    (b[0] as nat) * 16777216 + (b[1] as nat) * 65536 + (b[2] as nat) * 256 + (b[3] as nat)
}

/// A payload with its length before it.
pub fn encode_frame(payload: &Vec<u8>) -> (r: Vec<u8>)
    ensures
        r@ == be_bytes(payload@.len()) + payload@,
{
    let n: usize = payload.len();
    let mut out: Vec<u8> = Vec::new();
    out.push((n / 16777216 % 256) as u8);
    out.push((n / 65536 % 256) as u8);
    out.push((n / 256 % 256) as u8);
    out.push((n % 256) as u8);
    assert(out@ =~= be_bytes(payload@.len()));
    assert(payload@.take(0) =~= Seq::empty());
    for i in 0..payload.len()
        invariant
            out@ == be_bytes(payload@.len()) + payload@.take(i as int),
    {
        out.push(payload[i]);
        assert(out@ =~= be_bytes(payload@.len()) + payload@.take(i + 1));
    }
    assert(payload@.take(payload@.len() as int) =~= payload@);
    out
}

/// What is told of a length that is too large.
pub open spec fn too_long(len: nat) -> Seq<char> {
    "frame length "@ + decimal(len) + " exceeds maximum 16777216"@
}

/// The length of the payload that a header announces. A length beyond the largest
/// is refused before anything is set aside for it.
pub fn frame_length(header: [u8; 4]) -> (r: Result<usize, String>)
    ensures
        match r {
            Ok(n) => n == be_number(header@) && n <= MAX_FRAME,
            Err(m) => be_number(header@) > MAX_FRAME && m@ == too_long(be_number(header@)),
        },
{
    let n: u64 = (header[0] as u64) * 16777216 + (header[1] as u64) * 65536 + (header[2] as u64)
        * 256 + (header[3] as u64);
    if n > MAX_FRAME as u64 {
        return Err(
            joined3("frame length ", decimal_text(n).as_str(), " exceeds maximum 16777216"),
        );
    }
    Ok(n as usize)
}

/// What stands at the front of the bytes that arrived.
#[derive(Debug)]
pub enum Arrived {
    /// Less than a whole frame.
    Partial,
    /// A frame that is refused.
    Refused(String),
    /// The payload of a frame, and how many bytes the frame took.
    Frame { payload: Vec<u8>, taken: usize },
}

/// Takes the frame at the front of the bytes that arrived.
pub fn take_frame(bytes: &Vec<u8>) -> (r: Arrived)
    ensures
        if bytes@.len() < 4 {
            r is Partial
        } else {
            let n = be_number(bytes@.take(4));
            if n > MAX_FRAME {
                r matches Arrived::Refused(m) && m@ == too_long(n)
            } else if bytes@.len() < 4 + n {
                r is Partial
            } else {
                r matches Arrived::Frame { payload, taken } && payload@ == bytes@.subrange(
                    4,
                    4 + n as int,
                ) && taken == 4 + n
            }
        },
{
    if bytes.len() < 4 {
        return Arrived::Partial;
    }
    let header = [bytes[0], bytes[1], bytes[2], bytes[3]];
    assert(header@ =~= bytes@.take(4));
    match frame_length(header) {
        Err(m) => Arrived::Refused(m),
        Ok(n) => {
            if bytes.len() - 4 < n {
                return Arrived::Partial;
            }
            let mut payload: Vec<u8> = Vec::new();
            assert(bytes@.subrange(4, 4) =~= Seq::empty());
            for i in 0..n
                invariant
                    n <= MAX_FRAME,
                    n + 4 <= bytes@.len(),
                    payload@ == bytes@.subrange(4, 4 + i as int),
            {
                payload.push(bytes[i + 4]);
                assert(payload@ =~= bytes@.subrange(4, 4 + i + 1));
            }
            Arrived::Frame { payload, taken: n + 4 }
        },
    }
}

/// Four bytes give back the number that they were made of.
pub proof fn lengths_read_back(n: nat)
    requires
        n < 4294967296,
    ensures
        be_number(be_bytes(n)) == n,
{
    let a = n / 256;
    let b = a / 256;
    let c = b / 256;
    lemma_two_bytes(n);
    lemma_three_bytes(n);
    assert(n == a * 256 + n % 256);
    assert(a == b * 256 + a % 256);
    assert(b == c * 256 + b % 256);
    assert(c % 256 == c);
    let bytes = be_bytes(n);
    assert(bytes[0] as nat == c);
    assert(bytes[1] as nat == b % 256);
    assert(bytes[2] as nat == a % 256);
    assert(bytes[3] as nat == n % 256);
}

proof fn lemma_two_bytes(n: nat)
    ensures
        n / 65536 == n / 256 / 256,
{
    let b = n / 256 / 256;
    assert(b * 65536 <= n < (b + 1) * 65536);
}

proof fn lemma_three_bytes(n: nat)
    ensures
        n / 16777216 == n / 256 / 256 / 256,
{
    let c = n / 256 / 256 / 256;
    lemma_two_bytes(n);
    assert(c * 16777216 <= n < (c + 1) * 16777216);
}

/// A frame that was written is read back: what stands behind it on the stream does
/// not matter.
pub proof fn frames_read_back(payload: Seq<u8>, rest: Seq<u8>)
    requires
        payload.len() <= MAX_FRAME,
    ensures
        ({
            let bytes = be_bytes(payload.len()) + payload + rest;
            let n = be_number(bytes.take(4));
            &&& n == payload.len()
            &&& bytes.len() >= 4 + n
            &&& bytes.subrange(4, 4 + n as int) == payload
        }),
{
    let bytes = be_bytes(payload.len()) + payload + rest;
    assert(bytes.take(4) =~= be_bytes(payload.len()));
    lengths_read_back(payload.len());
    assert(bytes.subrange(4, 4 + payload.len() as int) =~= payload);
}

} // verus!
