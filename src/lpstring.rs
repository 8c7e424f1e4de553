use vstd::prelude::*;
use vstd::slice::{slice_subrange, slice_to_vec};
use vstd::string::*;
use vstd::utf8::*;

use crate::error::ProtocolError;
use crate::varint::{
    decode_var_int, encode_var_int, lemma_var_int_round_trip, varint_complete, varint_value,
    varint_width, write_var_int,
};

verus! {

/// The wire form of a string: a varint holding its UTF-8 byte length, then those bytes.
pub open spec fn string_bytes(chars: Seq<char>) -> Seq<u8> {
    encode_var_int(encode_utf8(chars).len() as i32) + encode_utf8(chars)
}

/// What decoding a length-prefixed string from the front of `s` gives: the
/// characters and the number of bytes taken, or the reason it fails.
pub open spec fn string_outcome(s: Seq<u8>) -> Result<(Seq<char>, nat), ProtocolError> {
    if !varint_complete(s) {
        Err(ProtocolError::MalformedVarint)
    } else {
        let n = varint_value(s) as int;
        let w = varint_width(s) as int;
        if n < 0 {
            Err(ProtocolError::InvalidLength)
        } else if s.len() < w + n {
            Err(ProtocolError::Truncated)
        } else if !valid_utf8(s.subrange(w, w + n)) {
            Err(ProtocolError::InvalidUtf8)
        } else {
            Ok((decode_utf8(s.subrange(w, w + n)), (w + n) as nat))
        }
    }
}

/// Relies on `String::from_utf8`: it accepts exactly the valid UTF-8 byte
/// sequences and then holds the characters they encode.
#[verifier::external_body]
fn string_from_utf8(bytes: Vec<u8>) -> (r: Option<String>)
    ensures
        r is Some <==> valid_utf8(bytes@),
        r matches Some(t) ==> t@ == decode_utf8(bytes@),
{
    String::from_utf8(bytes).ok()
}

/// Decodes a length-prefixed UTF-8 string from the front of `read` and, on
/// success, advances `read` past it. On failure `read` is left as it was.
pub fn read_string(read: &mut &[u8]) -> (r: Result<String, ProtocolError>)
    ensures
        match string_outcome(old(read)@) {
            Ok((chars, used)) => r matches Ok(t) && t@ == chars && final(read)@ == old(read)@.skip(
                used as int,
            ),
            Err(e) => r == Err::<String, ProtocolError>(e) && final(read)@ == old(read)@,
        },
{
    let data: &[u8] = *read;
    let (len, w) = decode_var_int(data);
    let n = match len {
        Ok(n) => n,
        Err(e) => {
            return Err(e);
        },
    };
    if n < 0 {
        return Err(ProtocolError::InvalidLength);
    }
    let n = n as usize;
    if data.len() - w < n {
        return Err(ProtocolError::Truncated);
    }
    let body = slice_to_vec(slice_subrange(data, w, w + n));
    match string_from_utf8(body) {
        Some(t) => {
            *read = slice_subrange(data, w + n, data.len());
            proof {
                assert(read@ =~= data@.skip((w + n) as int));
            }
            Ok(t)
        },
        None => Err(ProtocolError::InvalidUtf8),
    }
}

/// Appends `s` to `write` as a varint byte length followed by its UTF-8 bytes.
pub fn write_string(write: &mut Vec<u8>, s: String)
    requires
        encode_utf8(s@).len() <= i32::MAX,
    ensures
        final(write)@ == old(write)@ + string_bytes(s@),
{
    let bytes: &[u8] = s.as_str().as_bytes();
    write_var_int(write, bytes.len() as i32);
    let ghost mid = write@;
    let mut i: usize = 0;
    while i < bytes.len()
        invariant
            i <= bytes@.len(),
            bytes@ == encode_utf8(s@),
            mid == old(write)@ + encode_var_int(bytes@.len() as i32),
            write@ == mid + bytes@.take(i as int),
        decreases bytes.len() - i,
    {
        write.push(bytes[i]);
        assert(bytes@.take(i + 1) =~= bytes@.take(i as int).push(bytes@[i as int]));
        i = i + 1;
    }
    assert(bytes@.take(i as int) =~= bytes@);
}

/// Decoding the wire form of any string, whatever bytes follow it, yields the
/// string back and takes exactly its wire form.
pub proof fn lemma_string_round_trip(chars: Seq<char>, rest: Seq<u8>)
    requires
        encode_utf8(chars).len() <= i32::MAX,
    ensures
        string_outcome(string_bytes(chars) + rest) == Ok::<(Seq<char>, nat), ProtocolError>(
            (chars, string_bytes(chars).len()),
        ),
{
    let body = encode_utf8(chars);
    let n = body.len() as i32;
    let prefix = encode_var_int(n);
    let s = string_bytes(chars) + rest;
    lemma_var_int_round_trip(n, body + rest);
    assert(s =~= prefix + (body + rest));
    let w = varint_width(s) as int;
    assert(w == prefix.len());
    assert(s.subrange(w, w + body.len()) =~= body);
    encode_utf8_valid_utf8(chars);
    encode_utf8_decode_utf8(chars);
}

} // verus!
