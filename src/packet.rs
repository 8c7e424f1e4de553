use vstd::prelude::*;
use vstd::string::*;
use vstd::utf8::*;

use crate::lpstring::{string_bytes, write_string};
use crate::varint::{
    decode_var_int, encode_var_int, lemma_var_int_length_bound, lemma_var_int_round_trip,
    size_in_bytes, varint_complete, varint_len_of, varint_read_len, varint_value, write_var_int,
};
use crate::buffer::{buffer_extend, buffer_into_vec, buffer_with_capacity};
use crate::error::ProtocolError;

verus! {

/// The chat component sent to a client that asks to log in.
pub const LOGIN_DISCONNECT_JSON: &'static str = "{\"text\":\"Disconnect\",\"color\":\"red\"}";

/// A frame on the wire: the body's length as a varint, then the body.
pub open spec fn frame_bytes(body: Seq<u8>) -> Seq<u8> {
    encode_var_int(body.len() as i32) + body
}

/// The body of a response packet: packet id 0, then the JSON text as a string.
pub open spec fn packet_body(json: Seq<char>) -> Seq<u8> {
    seq![0u8] + string_bytes(json)
}

/// A body of `n` bytes can be framed: its length is a non-negative 32-bit
/// value, and the frame, at most five bytes longer, fits in memory.
pub open spec fn frame_body_fits(n: nat) -> bool {
    n <= i32::MAX && n + 5 <= isize::MAX
}

/// The frame prefix read so far ends in a continuation byte and may still be
/// completed by further bytes.
pub open spec fn varint_pending(s: Seq<u8>) -> bool {
    !varint_complete(s) && s.len() < 5
}

/// Wraps `body` in a frame: its length as a varint, then the body itself.
pub fn frame(body: &[u8]) -> (r: Vec<u8>)
    requires
        frame_body_fits(body@.len()),
    ensures
        r@ == frame_bytes(body@),
        r@.len() == varint_len_of(body@.len() as u32) + body@.len(),
{
    let len = body.len();
    let size = size_in_bytes(len as i32);
    let mut prefix: Vec<u8> = Vec::new();
    write_var_int(&mut prefix, len as i32);
    proof {
        lemma_var_int_length_bound(len as i32, seq![]);
        assert((len as i32) as u32 == len as u32);
    }
    let mut buf = buffer_with_capacity(size + len);
    buffer_extend(&mut buf, prefix.as_slice());
    buffer_extend(&mut buf, body);
    buffer_into_vec(buf)
}

/// Decides on the length prefix of an inbound frame from the bytes read so
/// far: `Ok(None)` while more bytes are needed, the body length once the
/// varint is complete, or the reason the prefix is unacceptable.
pub fn frame_length(prefix: &[u8]) -> (r: Result<Option<usize>, ProtocolError>)
    ensures
        varint_pending(prefix@) ==> r == Ok::<Option<usize>, ProtocolError>(None),
        !varint_complete(prefix@) && !varint_pending(prefix@) ==> r == Err::<
            Option<usize>,
            ProtocolError,
        >(ProtocolError::MalformedVarint),
        varint_complete(prefix@) && varint_value(prefix@) < 0 ==> r == Err::<
            Option<usize>,
            ProtocolError,
        >(ProtocolError::InvalidLength),
        varint_complete(prefix@) && varint_value(prefix@) >= 0 ==> r == Ok::<
            Option<usize>,
            ProtocolError,
        >(Some(varint_value(prefix@) as usize)),
{
    let (res, n) = decode_var_int(prefix);
    match res {
        Ok(v) => {
            if v < 0 {
                Err(ProtocolError::InvalidLength)
            } else {
                Ok(Some(v as usize))
            }
        },
        Err(e) => {
            if prefix.len() < 5 {
                Ok(None)
            } else {
                Err(e)
            }
        },
    }
}

/// The framed Status Response that carries the status document `status_json`.
pub fn status_response(status_json: String) -> (r: Vec<u8>)
    requires
        frame_body_fits(packet_body(status_json@).len()),
    ensures
        r@ == frame_bytes(packet_body(status_json@)),
{
    let ghost json = status_json@;
    let mut body: Vec<u8> = Vec::new();
    body.push(0u8);
    write_string(&mut body, status_json);
    assert(body@ =~= packet_body(json));
    frame(body.as_slice())
}

/// The framed Login Disconnect packet that refuses a login attempt.
pub fn login_disconnect() -> (r: Vec<u8>)
    ensures
        r@ == frame_bytes(packet_body(LOGIN_DISCONNECT_JSON@)),
{
    let json = String::from_str(LOGIN_DISCONNECT_JSON);
    proof {
        reveal_strlit("{\"text\":\"Disconnect\",\"color\":\"red\"}");
        is_ascii_chars_encode_utf8(json@);
        assert(encode_utf8(json@).len() == 35);
        lemma_var_int_length_bound(35, seq![]);
    }
    let mut body: Vec<u8> = Vec::new();
    body.push(0u8);
    write_string(&mut body, json);
    assert(body@ =~= packet_body(LOGIN_DISCONNECT_JSON@));
    frame(body.as_slice())
}

/// A frame holds the length of its body as a varint, then the body; it is
/// as long as `size_in_bytes` of the body length plus the body, and reading a
/// varint from its front gives back the body length and leaves the body.
pub proof fn lemma_frame_consistency(body: Seq<u8>)
    requires
        body.len() <= i32::MAX,
    ensures
        frame_bytes(body) == encode_var_int(body.len() as i32) + body,
        frame_bytes(body).len() == varint_len_of(body.len() as u32) + body.len(),
        varint_complete(frame_bytes(body)),
        varint_value(frame_bytes(body)) == body.len() as i32,
        frame_bytes(body).skip(varint_read_len(frame_bytes(body)) as int) == body,
{
    let n = body.len() as i32;
    lemma_var_int_length_bound(n, body);
    lemma_var_int_round_trip(n, body);
    assert(n as u32 == body.len() as u32);
    assert(frame_bytes(body).skip(encode_var_int(n).len() as int) =~= body);
}

} // verus!
