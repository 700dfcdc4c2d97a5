//! Framing of encrypted messages.
//!
//! A message frame is two zero marker bytes, the length of the ciphertext as
//! a big-endian 16-bit number, then the ciphertext.

use vstd::prelude::*;

use crate::bytes::{append_bytes, copy_range};
use crate::error::MitteError;

verus! {

/// Length of the header of a message frame.
pub const MESSAGE_HEADER_LEN: usize = 4;

/// Longest plaintext that `Agent::send_message` accepts: the modulus of a
/// key of `keys::KEY_BYTES` less the 11 bytes of PKCS#1 v1.5 padding.
pub const MAX_MESSAGE_LEN: usize = 245;

/// Longest message frame: a header and a ciphertext of `keys::KEY_BYTES`.
/// A receiver reads datagrams of up to this length.
pub const MESSAGE_FRAME_CAPACITY: usize = 260;

/// The frame that carries ciphertext `c`.
pub open spec fn message_frame(c: Seq<u8>) -> Seq<u8> {
    seq![0u8, 0u8, (c.len() / 256) as u8, (c.len() % 256) as u8] + c
}

/// `d` begins with the two zero marker bytes and a length.
pub open spec fn has_header(d: Seq<u8>) -> bool {
    d.len() >= MESSAGE_HEADER_LEN && d[0] == 0 && d[1] == 0
}

/// The ciphertext length that the header of `d` declares.
pub open spec fn declared_len(d: Seq<u8>) -> int {
    d[2] * 256 + d[3]
}

/// `d` holds a header and at least as many bytes as it declares.
pub open spec fn is_complete_frame(d: Seq<u8>) -> bool {
    has_header(d) && MESSAGE_HEADER_LEN + declared_len(d) <= d.len()
}

/// The ciphertext of a complete frame; bytes after it are not read.
pub open spec fn frame_payload(d: Seq<u8>) -> Seq<u8> {
    d.subrange(MESSAGE_HEADER_LEN as int, MESSAGE_HEADER_LEN + declared_len(d))
}

/// The frame that carries ciphertext `c`, which must fit a 16-bit length.
pub fn seal(c: &[u8]) -> (r: Vec<u8>)
    requires
        c@.len() <= 0xffff,
    ensures
        r@ == message_frame(c@),
{
    let n = c.len();
    let mut r: Vec<u8> = Vec::with_capacity(MESSAGE_HEADER_LEN + n);
    r.push(0);
    r.push(0);
    r.push((n / 256) as u8);
    r.push((n % 256) as u8);
    append_bytes(&mut r, c);
    r
}

/// The ciphertext that the frame `d` carries.
pub fn open(d: &[u8]) -> (r: Result<Vec<u8>, MitteError>)
    ensures
        r is Ok <==> is_complete_frame(d@),
        r matches Ok(c) ==> c@ == frame_payload(d@),
        !has_header(d@) ==> (r matches Err(e) && e is ReceiveError && e.reason()
            == "incorrect setup values"@),
        has_header(d@) && !is_complete_frame(d@) ==> (r matches Err(e) && e is ReceiveError
            && e.reason() == "truncated message"@),
{
    if d.len() < MESSAGE_HEADER_LEN || d[0] != 0 || d[1] != 0 {
        return Err(MitteError::ReceiveError(String::from_str("incorrect setup values")));
    }
    let n = (d[2] as usize) * 256 + d[3] as usize;
    if n > d.len() - MESSAGE_HEADER_LEN {
        return Err(MitteError::ReceiveError(String::from_str("truncated message")));
    }
    Ok(copy_range(d, MESSAGE_HEADER_LEN, MESSAGE_HEADER_LEN + n))
}

/// Opening the frame that carries a ciphertext gives that ciphertext back.
pub proof fn lemma_message_frame_round_trip(c: Seq<u8>)
    requires
        c.len() <= 0xffff,
    ensures
        is_complete_frame(message_frame(c)),
        frame_payload(message_frame(c)) == c,
{
    let f = message_frame(c);
    assert(declared_len(f) == c.len());
    assert(f.subrange(4, 4 + c.len() as int) == c);
}

} // verus!
